//! Content-free observations of the Ion tree of a KFX input: how often each
//! value kind, field and annotation occurs, with samples of candidate
//! fields. The report never holds text; it holds counts, numeric field
//! paths and value kinds.
use vstd::prelude::*;
use vstd::utf8::encode_utf8;
use crate::content::{count_field, count_field_occurrences, sat};
use crate::counts::{CountMap, NestedCountMap, added, bumped, sat_inc};
use crate::digest::{sha256, sha256_digest};
use crate::error::{AmazonKfxError, KfxErrorView, ParseMode, error_code, fidelity_error_code};
use crate::inspect::{native_spec, parse_native};
use crate::ion::{IonModel, IonValue, models, field_models, lemma_models_index, lemma_field_models_index};
use crate::media::{hex_lower, hex_spec};
use crate::native::{FragmentView, NativeFragment, NativeModel, NativeModelView, fragment_views, has_cont_prefix, strs};
use crate::text::{decimal, decimal_string, join2, owned};
use crate::value::{ion_value_kind, kind_name};

verus! {

pub const MAX_SEMANTIC_EVIDENCE_DEPTH: usize = 32;
pub const MAX_SEMANTIC_EVIDENCE_SAMPLES: usize = 256;
pub const RENDER_INLINE_FIELD: u64 = 690;

/// How a conditional branch was evaluated; only `Unknown` is ever reported.
#[derive(Clone, Copy, Debug, PartialEq, Eq, Structural)]
pub enum KfxConditionalEvaluation {
    True,
    False,
    Unknown,
}

/// Where conditional-content candidate fields occur.
#[derive(Debug)]
pub struct KfxConditionalEvidence {
    pub candidate_field_occurrence_counts: CountMap,
    pub candidate_fragment_type_counts: CountMap,
    pub evaluation: Option<KfxConditionalEvaluation>,
    pub status: String,
}

/// Where render-inline candidate fields occur.
#[derive(Debug)]
pub struct KfxRenderInlineEvidence {
    pub candidate_field_occurrence_counts: CountMap,
    pub candidate_fragment_type_counts: CountMap,
    pub status: String,
}

/// Counts over the whole native tree.
#[derive(Debug)]
pub struct KfxSemanticEvidenceNative {
    pub fragment_count: usize,
    pub fragment_type_counts: CountMap,
    pub field_occurrence_counts_by_fragment: CountMap,
    pub field_value_kind_counts_by_fragment: NestedCountMap,
    pub value_kind_counts_by_fragment: NestedCountMap,
    pub annotation_symbol_counts: CountMap,
    pub scalar_string_count: usize,
    pub scalar_string_max_utf8_bytes: usize,
}

/// One occurrence of a candidate field.
#[derive(Debug)]
pub struct KfxSemanticEvidenceSample {
    pub fragment_type: u32,
    pub container_index: usize,
    pub entity_id: u32,
    pub field_path: Vec<u64>,
    pub value_kind: String,
    pub list_item_count: Option<usize>,
    pub annotation_symbol_ids: Vec<u64>,
    pub candidate_symbol_id: Option<u64>,
}

/// The semantic evidence report of one input.
#[derive(Debug)]
pub struct KfxSemanticEvidenceAudit {
    pub schema_version: u32,
    pub parser_version: String,
    pub input_sha256_audit_only: String,
    pub status: String,
    pub error_code: Option<String>,
    pub native: KfxSemanticEvidenceNative,
    pub candidate_field_occurrence_counts: CountMap,
    pub candidate_samples: Vec<KfxSemanticEvidenceSample>,
    pub conditional: KfxConditionalEvidence,
    pub render_inline: KfxRenderInlineEvidence,
    pub diagnostics: CountMap,
}

/// The fields whose occurrences are sampled.
pub open spec fn is_candidate_field(f: u64) -> bool {
    f == 159 || f == 171 || f == 179 || f == 281 || f == 491 || f == 590 || f == 591 || f == 592 || f
        == 616 || f == 618 || f == 619 || f == 683 || f == 690 || f == 757 || f == 758 || f == 759
}

fn candidate_field(f: u64) -> (r: bool)
    ensures
        r == is_candidate_field(f),
{
    f == 159 || f == 171 || f == 179 || f == 281 || f == 491 || f == 590 || f == 591 || f == 592 || f
        == 616 || f == 618 || f == 619 || f == 683 || f == 690 || f == 757 || f == 758 || f == 759
}

/// The fields that mark conditional content.
pub open spec fn is_conditional_field(f: u64) -> bool {
    f == 171 || f == 591 || f == 592
}

// ---------------------------------------------------------------------------
// Conditional and render-inline evidence.
// ---------------------------------------------------------------------------

/// The counts that one field adds, over fragments in order: by field id and
/// by fragment type.
pub open spec fn field_evidence(
    frags: Seq<FragmentView>,
    fields: Seq<u64>,
) -> (Map<Seq<char>, usize>, Map<Seq<char>, usize>)
    decreases frags.len(), fields.len(),
{
    if frags.len() == 0 {
        (Map::empty(), Map::empty())
    } else {
        let (a, b) = field_evidence(frags.drop_last(), fields);
        fields_of_fragment(a, b, frags.last(), fields)
    }
}

pub open spec fn fields_of_fragment(
    a: Map<Seq<char>, usize>,
    b: Map<Seq<char>, usize>,
    f: FragmentView,
    fields: Seq<u64>,
) -> (Map<Seq<char>, usize>, Map<Seq<char>, usize>)
    decreases fields.len(),
{
    if fields.len() == 0 {
        (a, b)
    } else {
        let (a1, b1) = fields_of_fragment(a, b, f, fields.drop_last());
        field_step(a1, b1, f, fields.last())
    }
}

/// The counts that one field of one fragment adds.
pub open spec fn field_step(
    a: Map<Seq<char>, usize>,
    b: Map<Seq<char>, usize>,
    f: FragmentView,
    field: u64,
) -> (Map<Seq<char>, usize>, Map<Seq<char>, usize>) {
    let count = sat(count_field(f.value, field));
    if count > 0 {
        (added(a, decimal(field as nat), count), added(b, decimal(f.fragment_type as nat), count))
    } else {
        (a, b)
    }
}

pub open spec fn evidence_status(a: Map<Seq<char>, usize>) -> Seq<char> {
    if a.is_empty() {
        "NotObservedInNativeTree"@
    } else {
        "CandidateObservedRequiresSourceRelation"@
    }
}

pub struct ConditionalView {
    pub field_counts: Map<Seq<char>, usize>,
    pub type_counts: Map<Seq<char>, usize>,
    pub evaluation: Option<KfxConditionalEvaluation>,
    pub status: Seq<char>,
}

impl KfxConditionalEvidence {
    pub open spec fn view_of(&self) -> ConditionalView {
        ConditionalView {
            field_counts: self.candidate_field_occurrence_counts.counts(),
            type_counts: self.candidate_fragment_type_counts.counts(),
            evaluation: self.evaluation,
            status: self.status@,
        }
    }

    pub open spec fn wf(&self) -> bool {
        self.candidate_field_occurrence_counts.wf() && self.candidate_fragment_type_counts.wf()
    }
}

/// The conditional evidence of a set of fragments.
pub open spec fn conditional_spec(frags: Seq<FragmentView>) -> ConditionalView {
    let (a, b) = field_evidence(frags, seq![171u64, 591u64, 592u64]);
    ConditionalView {
        field_counts: a,
        type_counts: b,
        evaluation: if a.is_empty() { None } else { Some(KfxConditionalEvaluation::Unknown) },
        status: evidence_status(a),
    }
}

fn add_field_evidence(
    field_counts: &mut CountMap,
    type_counts: &mut CountMap,
    fragment: &NativeFragment,
    field: u64,
)
    requires
        old(field_counts).wf(),
        old(type_counts).wf(),
    ensures
        final(field_counts).wf(),
        final(type_counts).wf(),
        (final(field_counts).counts(), final(type_counts).counts()) == field_step(
            old(field_counts).counts(),
            old(type_counts).counts(),
            fragment@,
            field,
        ),
{
    let count = count_field_occurrences(&fragment.value, field);
    if count > 0 {
        let f = decimal_string(field);
        let t = decimal_string(fragment.fragment_type as u64);
        field_counts.add(f.as_str(), count);
        type_counts.add(t.as_str(), count);
    }
}

/// Counts the conditional-content candidate fields of every fragment.
pub fn audit_conditional_evidence(fragments: &Vec<NativeFragment>) -> (r: KfxConditionalEvidence)
    ensures
        r.wf(),
        r.view_of() == conditional_spec(fragment_views(fragments@)),
{
    let ghost fv = fragment_views(fragments@);
    let ghost fields = seq![171u64, 591u64, 592u64];
    let mut field_counts = CountMap::new();
    let mut type_counts = CountMap::new();
    let mut i: usize = 0;
    while i < fragments.len()
        invariant
            0 <= i <= fragments@.len(),
            fv == fragment_views(fragments@),
            fields == seq![171u64, 591u64, 592u64],
            field_counts.wf(),
            type_counts.wf(),
            (field_counts.counts(), type_counts.counts()) == field_evidence(fv.take(i as int), fields),
        decreases fragments@.len() - i,
    {
        let f = &fragments[i];
        let ghost a0 = field_counts.counts();
        let ghost b0 = type_counts.counts();
        proof {
            assert(fv.take(i + 1).drop_last() =~= fv.take(i as int));
            assert(fv[i as int] == f@);
            assert(fields.drop_last() =~= seq![171u64, 591u64]);
            assert(fields.drop_last().drop_last() =~= seq![171u64]);
            assert(fields.drop_last().drop_last().drop_last() =~= Seq::<u64>::empty());
            assert(seq![171u64].drop_last() =~= Seq::<u64>::empty());
        }
        add_field_evidence(&mut field_counts, &mut type_counts, f, 171);
        let ghost a1 = field_counts.counts();
        let ghost b1 = type_counts.counts();
        add_field_evidence(&mut field_counts, &mut type_counts, f, 591);
        let ghost a2 = field_counts.counts();
        let ghost b2 = type_counts.counts();
        add_field_evidence(&mut field_counts, &mut type_counts, f, 592);
        proof {
            assert(fields_of_fragment(a0, b0, f@, Seq::<u64>::empty()) == (a0, b0));
            assert(fields_of_fragment(a0, b0, f@, seq![171u64]) == (a1, b1));
            assert(fields_of_fragment(a0, b0, f@, seq![171u64, 591u64]) == (a2, b2));
        }
        i = i + 1;
    }
    assert(fv.take(i as int) =~= fv);
    let empty = field_counts.is_empty();
    KfxConditionalEvidence {
        candidate_field_occurrence_counts: field_counts,
        candidate_fragment_type_counts: type_counts,
        evaluation: if empty { None } else { Some(KfxConditionalEvaluation::Unknown) },
        status: if empty {
            owned("NotObservedInNativeTree")
        } else {
            owned("CandidateObservedRequiresSourceRelation")
        },
    }
}

pub struct RenderInlineView {
    pub field_counts: Map<Seq<char>, usize>,
    pub type_counts: Map<Seq<char>, usize>,
    pub status: Seq<char>,
}

impl KfxRenderInlineEvidence {
    pub open spec fn view_of(&self) -> RenderInlineView {
        RenderInlineView {
            field_counts: self.candidate_field_occurrence_counts.counts(),
            type_counts: self.candidate_fragment_type_counts.counts(),
            status: self.status@,
        }
    }

    pub open spec fn wf(&self) -> bool {
        self.candidate_field_occurrence_counts.wf() && self.candidate_fragment_type_counts.wf()
    }
}

/// The render-inline evidence (`$690`) of a set of fragments.
pub open spec fn render_inline_spec(frags: Seq<FragmentView>) -> RenderInlineView {
    let (a, b) = field_evidence(frags, seq![RENDER_INLINE_FIELD]);
    RenderInlineView { field_counts: a, type_counts: b, status: evidence_status(a) }
}

/// Counts the render-inline candidate fields of every fragment.
pub fn audit_render_inline_evidence(fragments: &Vec<NativeFragment>) -> (r: KfxRenderInlineEvidence)
    ensures
        r.wf(),
        r.view_of() == render_inline_spec(fragment_views(fragments@)),
{
    let ghost fv = fragment_views(fragments@);
    let mut field_counts = CountMap::new();
    let mut type_counts = CountMap::new();
    let mut i: usize = 0;
    while i < fragments.len()
        invariant
            0 <= i <= fragments@.len(),
            fv == fragment_views(fragments@),
            field_counts.wf(),
            type_counts.wf(),
            (field_counts.counts(), type_counts.counts()) == field_evidence(fv.take(i as int), seq![RENDER_INLINE_FIELD]),
        decreases fragments@.len() - i,
    {
        proof {
            assert(fv.take(i + 1).drop_last() =~= fv.take(i as int));
            assert(fv[i as int] == fragments@[i as int]@);
        }
        let ghost a0 = field_counts.counts();
        let ghost b0 = type_counts.counts();
        add_field_evidence(&mut field_counts, &mut type_counts, &fragments[i], RENDER_INLINE_FIELD);
        proof {
            assert(seq![RENDER_INLINE_FIELD].drop_last() =~= Seq::<u64>::empty());
            assert(fields_of_fragment(a0, b0, fragments@[i as int]@, Seq::<u64>::empty()) == (a0, b0));
        }
        i = i + 1;
    }
    assert(fv.take(i as int) =~= fv);
    let empty = field_counts.is_empty();
    KfxRenderInlineEvidence {
        candidate_field_occurrence_counts: field_counts,
        candidate_fragment_type_counts: type_counts,
        status: if empty {
            owned("NotObservedInNativeTree")
        } else {
            owned("CandidateObservedRequiresSourceRelation")
        },
    }
}

// ---------------------------------------------------------------------------
// The walk over the Ion tree.
// ---------------------------------------------------------------------------

pub struct SampleView {
    pub fragment_type: u32,
    pub container_index: usize,
    pub entity_id: u32,
    pub field_path: Seq<u64>,
    pub value_kind: Seq<char>,
    pub list_item_count: Option<usize>,
    pub annotation_symbol_ids: Seq<u64>,
    pub candidate_symbol_id: Option<u64>,
}

impl View for KfxSemanticEvidenceSample {
    type V = SampleView;

    open spec fn view(&self) -> SampleView {
        SampleView {
            fragment_type: self.fragment_type,
            container_index: self.container_index,
            entity_id: self.entity_id,
            field_path: self.field_path@,
            value_kind: self.value_kind@,
            list_item_count: self.list_item_count,
            annotation_symbol_ids: self.annotation_symbol_ids@,
            candidate_symbol_id: self.candidate_symbol_id,
        }
    }
}

pub open spec fn sample_views(s: Seq<KfxSemanticEvidenceSample>) -> Seq<SampleView> {
    s.map_values(|x: KfxSemanticEvidenceSample| x@)
}

/// The sample of a candidate field `child` reached by `path`.
pub open spec fn sample_of(f: FragmentView, path: Seq<u64>, child: IonModel) -> SampleView {
    SampleView {
        fragment_type: f.fragment_type,
        container_index: f.container_index,
        entity_id: f.entity_id,
        field_path: path,
        value_kind: kind_name(child),
        list_item_count: match child {
            IonModel::List(items) => Some(items.len() as usize),
            IonModel::SExp(items) => Some(items.len() as usize),
            _ => None,
        },
        annotation_symbol_ids: match child {
            IonModel::Annotation { symbols, .. } => symbols,
            _ => Seq::empty(),
        },
        candidate_symbol_id: match child {
            IonModel::Symbol(sym) => Some(sym),
            _ => None,
        },
    }
}

/// What the walk has counted so far.
pub struct EvState {
    pub type_counts: Map<Seq<char>, usize>,
    pub value_kinds: Map<Seq<char>, Map<Seq<char>, usize>>,
    pub field_kinds: Map<Seq<char>, Map<Seq<char>, usize>>,
    pub field_counts: Map<Seq<char>, usize>,
    pub annotation_counts: Map<Seq<char>, usize>,
    pub candidate_counts: Map<Seq<char>, usize>,
    pub diagnostics: Map<Seq<char>, usize>,
    pub string_count: usize,
    pub string_max: usize,
    pub samples: Seq<SampleView>,
}

pub open spec fn nested_bump(
    m: Map<Seq<char>, Map<Seq<char>, usize>>,
    outer: Seq<char>,
    inner: Seq<char>,
) -> Map<Seq<char>, Map<Seq<char>, usize>> {
    m.insert(outer, bumped(if m.contains_key(outer) { m[outer] } else { Map::empty() }, inner))
}

/// The UTF-8 length of a string.
pub open spec fn utf8_len(t: Seq<char>) -> usize {
    encode_utf8(t).len() as usize
}

pub open spec fn field_key(f: FragmentView, field: u64) -> Seq<char> {
    decimal(f.fragment_type as nat) + ":$"@ + decimal(field as nat)
}

pub open spec fn annotations_counted(st: EvState, symbols: Seq<u64>) -> EvState
    decreases symbols.len(),
{
    if symbols.len() == 0 {
        st
    } else {
        let prev = annotations_counted(st, symbols.drop_last());
        EvState { annotation_counts: bumped(prev.annotation_counts, decimal(symbols.last() as nat)), ..prev }
    }
}

/// What meeting field `k` with value `child` at `path` counts.
pub open spec fn field_seen(st: EvState, k: u64, child: IonModel, f: FragmentView, path: Seq<u64>) -> EvState {
    let key = field_key(f, k);
    let s1 = EvState {
        field_counts: bumped(st.field_counts, key),
        field_kinds: nested_bump(st.field_kinds, key, kind_name(child)),
        ..st
    };
    if is_candidate_field(k) {
        let s2 = EvState { candidate_counts: bumped(s1.candidate_counts, decimal(k as nat)), ..s1 };
        if s2.samples.len() < MAX_SEMANTIC_EVIDENCE_SAMPLES {
            EvState { samples: s2.samples.push(sample_of(f, path.push(k), child)), ..s2 }
        } else {
            s2
        }
    } else {
        s1
    }
}

/// The walk over one value at `path`; below the depth limit only the limit
/// is recorded.
pub open spec fn ev_value(st: EvState, m: IonModel, f: FragmentView, path: Seq<u64>) -> EvState
    decreases m,
{
    if path.len() > MAX_SEMANTIC_EVIDENCE_DEPTH {
        EvState { diagnostics: bumped(st.diagnostics, "evidence_depth_limit"@), ..st }
    } else {
        let st1 = EvState {
            value_kinds: nested_bump(st.value_kinds, decimal(f.fragment_type as nat), kind_name(m)),
            ..st
        };
        match m {
            IonModel::String(t) => EvState {
                string_count: sat_inc(st1.string_count),
                string_max: if utf8_len(t) > st1.string_max { utf8_len(t) } else { st1.string_max },
                ..st1
            },
            IonModel::Annotation { symbols, value } => ev_value(annotations_counted(st1, symbols), *value, f, path),
            IonModel::Struct(fields) => ev_fields(st1, fields, f, path),
            IonModel::List(items) => ev_items(st1, items, f, path),
            IonModel::SExp(items) => ev_items(st1, items, f, path),
            _ => st1,
        }
    }
}

pub open spec fn ev_items(st: EvState, s: Seq<IonModel>, f: FragmentView, path: Seq<u64>) -> EvState
    decreases s,
{
    if s.len() == 0 {
        st
    } else {
        ev_value(ev_items(st, s.drop_last(), f, path), s.last(), f, path)
    }
}

pub open spec fn ev_fields(st: EvState, s: Seq<(u64, IonModel)>, f: FragmentView, path: Seq<u64>) -> EvState
    decreases s,
{
    if s.len() == 0 {
        st
    } else {
        proof {
            assert(decreases_to!(s => s[s.len() - 1].1));
        }
        let prev = ev_fields(st, s.drop_last(), f, path);
        let (k, child) = s.last();
        ev_value(field_seen(prev, k, child, f, path), child, f, path.push(k))
    }
}

/// The counters of the walk.
pub struct EvidenceWalk {
    pub type_counts: CountMap,
    pub value_kinds: NestedCountMap,
    pub field_kinds: NestedCountMap,
    pub field_counts: CountMap,
    pub annotation_counts: CountMap,
    pub candidate_counts: CountMap,
    pub diagnostics: CountMap,
    pub string_count: usize,
    pub string_max: usize,
    pub samples: Vec<KfxSemanticEvidenceSample>,
}

impl EvidenceWalk {
    pub open spec fn wf(&self) -> bool {
        &&& self.type_counts.wf()
        &&& self.value_kinds.wf()
        &&& self.field_kinds.wf()
        &&& self.field_counts.wf()
        &&& self.annotation_counts.wf()
        &&& self.candidate_counts.wf()
        &&& self.diagnostics.wf()
    }

    pub open spec fn state(&self) -> EvState {
        EvState {
            type_counts: self.type_counts.counts(),
            value_kinds: self.value_kinds.counts(),
            field_kinds: self.field_kinds.counts(),
            field_counts: self.field_counts.counts(),
            annotation_counts: self.annotation_counts.counts(),
            candidate_counts: self.candidate_counts.counts(),
            diagnostics: self.diagnostics.counts(),
            string_count: self.string_count,
            string_max: self.string_max,
            samples: sample_views(self.samples@),
        }
    }

    pub fn new() -> (r: Self)
        ensures
            r.wf(),
            r.state() == empty_state(),
    {
        let r = EvidenceWalk {
            type_counts: CountMap::new(),
            value_kinds: NestedCountMap::new(),
            field_kinds: NestedCountMap::new(),
            field_counts: CountMap::new(),
            annotation_counts: CountMap::new(),
            candidate_counts: CountMap::new(),
            diagnostics: CountMap::new(),
            string_count: 0,
            string_max: 0,
            samples: Vec::new(),
        };
        assert(sample_views(r.samples@) =~= Seq::<SampleView>::empty());
        r
    }
}

pub open spec fn empty_state() -> EvState {
    EvState {
        type_counts: Map::empty(),
        value_kinds: Map::empty(),
        field_kinds: Map::empty(),
        field_counts: Map::empty(),
        annotation_counts: Map::empty(),
        candidate_counts: Map::empty(),
        diagnostics: Map::empty(),
        string_count: 0,
        string_max: 0,
        samples: Seq::empty(),
    }
}

fn sample_for(fragment: &NativeFragment, path: &Vec<u64>, field: u64, child: &IonValue) -> (r: KfxSemanticEvidenceSample)
    ensures
        r@ == sample_of(fragment@, path@.push(field), child@),
{
    let mut field_path: Vec<u64> = Vec::new();
    let mut i: usize = 0;
    while i < path.len()
        invariant
            0 <= i <= path@.len(),
            field_path@ == path@.subrange(0, i as int),
        decreases path@.len() - i,
    {
        field_path.push(path[i]);
        assert(field_path@ =~= path@.subrange(0, i + 1));
        i = i + 1;
    }
    field_path.push(field);
    assert(field_path@ =~= path@.push(field));
    let list_item_count = match child {
        IonValue::List(items) => {
            proof {
                lemma_models_index(items@);
            }
            Some(items.len())
        },
        IonValue::SExp(items) => {
            proof {
                lemma_models_index(items@);
            }
            Some(items.len())
        },
        _ => None,
    };
    let mut annotation_symbol_ids: Vec<u64> = Vec::new();
    match child {
        IonValue::Annotation { symbols, .. } => {
            let mut j: usize = 0;
            while j < symbols.len()
                invariant
                    0 <= j <= symbols@.len(),
                    annotation_symbol_ids@ == symbols@.subrange(0, j as int),
                decreases symbols@.len() - j,
            {
                annotation_symbol_ids.push(symbols[j]);
                assert(annotation_symbol_ids@ =~= symbols@.subrange(0, j + 1));
                j = j + 1;
            }
            assert(annotation_symbol_ids@ =~= symbols@);
        },
        _ => {
            assert(annotation_symbol_ids@ =~= Seq::<u64>::empty());
        },
    }
    let candidate_symbol_id = match child {
        IonValue::Symbol(sym) => Some(*sym),
        _ => None,
    };
    KfxSemanticEvidenceSample {
        fragment_type: fragment.fragment_type,
        container_index: fragment.container_index,
        entity_id: fragment.entity_id,
        field_path,
        value_kind: owned(ion_value_kind(child)),
        list_item_count,
        annotation_symbol_ids,
        candidate_symbol_id,
    }
}

fn note_field(walk: &mut EvidenceWalk, fragment: &NativeFragment, path: &Vec<u64>, field: u64, child: &IonValue)
    requires
        old(walk).wf(),
    ensures
        final(walk).wf(),
        final(walk).state() == field_seen(old(walk).state(), field, child@, fragment@, path@),
{
    let t = decimal_string(fragment.fragment_type as u64);
    let f = decimal_string(field);
    let head = join2(t.as_str(), ":$");
    let key = join2(head.as_str(), f.as_str());
    walk.field_counts.increment(key.as_str());
    walk.field_kinds.increment(key.as_str(), ion_value_kind(child));
    if candidate_field(field) {
        walk.candidate_counts.increment(f.as_str());
        if walk.samples.len() < MAX_SEMANTIC_EVIDENCE_SAMPLES {
            let sample = sample_for(fragment, path, field, child);
            let ghost before = walk.samples@;
            walk.samples.push(sample);
            assert(sample_views(walk.samples@) =~= sample_views(before).push(sample@));
        }
    }
}

/// Counts the value kinds, fields, annotations and strings of one value of
/// a fragment, sampling candidate fields; `path` is the field path of the
/// value, and is the same on return.
pub fn collect_semantic_evidence_value(
    value: &IonValue,
    fragment: &NativeFragment,
    path: &mut Vec<u64>,
    walk: &mut EvidenceWalk,
)
    requires
        old(walk).wf(),
    ensures
        final(walk).wf(),
        final(path)@ == old(path)@,
        final(walk).state() == ev_value(old(walk).state(), value@, fragment@, old(path)@),
    decreases value,
{
    if path.len() > MAX_SEMANTIC_EVIDENCE_DEPTH {
        walk.diagnostics.increment("evidence_depth_limit");
        return;
    }
    let t = decimal_string(fragment.fragment_type as u64);
    walk.value_kinds.increment(t.as_str(), ion_value_kind(value));
    match value {
        IonValue::String(text) => {
            walk.string_count = if walk.string_count == usize::MAX { walk.string_count } else { walk.string_count + 1 };
            let n = text.as_str().len();
            if n > walk.string_max {
                walk.string_max = n;
            }
        },
        IonValue::Annotation { symbols, value: inner } => {
            let ghost st1 = walk.state();
            let mut j: usize = 0;
            proof {
                assert(symbols@.subrange(0, 0) =~= Seq::<u64>::empty());
            }
            while j < symbols.len()
                invariant
                    0 <= j <= symbols@.len(),
                    walk.wf(),
                    walk.state() == annotations_counted(st1, symbols@.subrange(0, j as int)),
                decreases symbols@.len() - j,
            {
                proof {
                    assert(symbols@.subrange(0, j + 1).drop_last() =~= symbols@.subrange(0, j as int));
                }
                let d = decimal_string(symbols[j]);
                walk.annotation_counts.increment(d.as_str());
                j = j + 1;
            }
            assert(symbols@.subrange(0, symbols@.len() as int) =~= symbols@);
            collect_semantic_evidence_value(inner, fragment, path, walk);
        },
        IonValue::Struct(fields) => evidence_in_fields(fields, fragment, path, walk),
        IonValue::List(items) => evidence_in_items(items, fragment, path, walk),
        IonValue::SExp(items) => evidence_in_items(items, fragment, path, walk),
        _ => {},
    }
}

fn evidence_in_items(items: &Vec<IonValue>, fragment: &NativeFragment, path: &mut Vec<u64>, walk: &mut EvidenceWalk)
    requires
        old(walk).wf(),
    ensures
        final(walk).wf(),
        final(path)@ == old(path)@,
        final(walk).state() == ev_items(old(walk).state(), models(items@), fragment@, old(path)@),
    decreases items,
{
    let ghost ms = models(items@);
    let ghost st0 = walk.state();
    let ghost p0 = path@;
    proof {
        lemma_models_index(items@);
    }
    let mut i: usize = 0;
    while i < items.len()
        invariant
            0 <= i <= items@.len(),
            walk.wf(),
            path@ == p0,
            ms == models(items@),
            ms.len() == items@.len(),
            forall|k: int| 0 <= k < items@.len() ==> #[trigger] ms[k] == items@[k]@,
            walk.state() == ev_items(st0, ms.subrange(0, i as int), fragment@, p0),
        decreases items@.len() - i,
    {
        assert(decreases_to!(items => items@[i as int]));
        assert(ms.subrange(0, i + 1).drop_last() =~= ms.subrange(0, i as int));
        collect_semantic_evidence_value(&items[i], fragment, path, walk);
        i = i + 1;
    }
    assert(ms.subrange(0, ms.len() as int) =~= ms);
}

fn evidence_in_fields(fields: &Vec<(u64, IonValue)>, fragment: &NativeFragment, path: &mut Vec<u64>, walk: &mut EvidenceWalk)
    requires
        old(walk).wf(),
    ensures
        final(walk).wf(),
        final(path)@ == old(path)@,
        final(walk).state() == ev_fields(old(walk).state(), field_models(fields@), fragment@, old(path)@),
    decreases fields,
{
    let ghost fs = field_models(fields@);
    let ghost st0 = walk.state();
    let ghost p0 = path@;
    proof {
        lemma_field_models_index(fields@);
    }
    let mut i: usize = 0;
    while i < fields.len()
        invariant
            0 <= i <= fields@.len(),
            walk.wf(),
            path@ == p0,
            fs == field_models(fields@),
            fs.len() == fields@.len(),
            forall|k: int| 0 <= k < fields@.len() ==> #[trigger] fs[k] == (fields@[k].0, fields@[k].1@),
            walk.state() == ev_fields(st0, fs.subrange(0, i as int), fragment@, p0),
        decreases fields@.len() - i,
    {
        assert(decreases_to!(fields => fields@[i as int].1));
        assert(fs.subrange(0, i + 1).drop_last() =~= fs.subrange(0, i as int));
        let field = fields[i].0;
        let child = &fields[i].1;
        note_field(walk, fragment, path, field, child);
        path.push(field);
        collect_semantic_evidence_value(child, fragment, path, walk);
        let _ = path.pop();
        assert(path@ =~= p0);
        i = i + 1;
    }
    assert(fs.subrange(0, fs.len() as int) =~= fs);
}

// ---------------------------------------------------------------------------
// The report.
// ---------------------------------------------------------------------------

/// The walk over every fragment in order, each counted by its type first.
pub open spec fn walk_fragments(st: EvState, frags: Seq<FragmentView>) -> EvState
    decreases frags.len(),
{
    if frags.len() == 0 {
        st
    } else {
        let prev = walk_fragments(st, frags.drop_last());
        let f = frags.last();
        ev_value(
            EvState { type_counts: bumped(prev.type_counts, decimal(f.fragment_type as nat)), ..prev },
            f.value,
            f,
            Seq::empty(),
        )
    }
}

/// How far an evidence audit got.
pub enum EvidenceOutcome {
    NotCont,
    Failed(Seq<char>),
    Drm,
    Read(NativeModelView),
}

pub open spec fn evidence_outcome(bytes: Seq<u8>) -> EvidenceOutcome {
    if !has_cont_prefix(bytes) {
        EvidenceOutcome::NotCont
    } else {
        match native_spec(seq![bytes], ParseMode::Compatible) {
            Err(e) => EvidenceOutcome::Failed(error_code(e)),
            Ok(m) => if m.drm_detected {
                EvidenceOutcome::Drm
            } else {
                EvidenceOutcome::Read(m)
            },
        }
    }
}

impl KfxSemanticEvidenceAudit {
    /// The counters of the report, as a walk state.
    pub open spec fn report_state(&self) -> EvState {
        EvState {
            type_counts: self.native.fragment_type_counts.counts(),
            value_kinds: self.native.value_kind_counts_by_fragment.counts(),
            field_kinds: self.native.field_value_kind_counts_by_fragment.counts(),
            field_counts: self.native.field_occurrence_counts_by_fragment.counts(),
            annotation_counts: self.native.annotation_symbol_counts.counts(),
            candidate_counts: self.candidate_field_occurrence_counts.counts(),
            diagnostics: self.diagnostics.counts(),
            string_count: self.native.scalar_string_count,
            string_max: self.native.scalar_string_max_utf8_bytes,
            samples: sample_views(self.candidate_samples@),
        }
    }
}

pub open spec fn failed_state(code: Seq<char>) -> EvState {
    EvState { diagnostics: bumped(Map::empty(), code), ..empty_state() }
}

pub open spec fn opt_text(s: Option<String>) -> Option<Seq<char>> {
    match s {
        Some(x) => Some(x@),
        None => None,
    }
}

/// The report of a read that stopped early.
pub open spec fn failed_report(r: KfxSemanticEvidenceAudit, code: Seq<char>, diagnostic: Seq<char>) -> bool {
    &&& r.status@ == "Failed"@
    &&& opt_text(r.error_code) == Some(code)
    &&& r.native.fragment_count == 0
    &&& r.report_state() == failed_state(diagnostic)
    &&& r.conditional.view_of() == (ConditionalView { field_counts: Map::empty(), type_counts: Map::empty(), evaluation: None, status: Seq::empty() })
    &&& r.render_inline.view_of() == (RenderInlineView { field_counts: Map::empty(), type_counts: Map::empty(), status: Seq::empty() })
}

/// The report of a read model.
pub open spec fn read_report(r: KfxSemanticEvidenceAudit, m: NativeModelView) -> bool {
    let st = walk_fragments(empty_state(), m.fragments);
    let clean = m.warnings.len() == 0 && m.unknown_features.len() == 0 && m.input_loss.len() == 0;
    &&& r.status@ == (if clean { "Complete"@ } else { "CompleteWithWarnings"@ })
    &&& r.error_code is None
    &&& r.native.fragment_count == m.fragments.len()
    &&& r.report_state() == EvState {
        diagnostics: st.diagnostics.insert("parser_warning_count"@, m.warnings.len() as usize).insert(
            "unknown_feature_count"@,
            m.unknown_features.len() as usize,
        ).insert("input_loss_count"@, m.input_loss.len() as usize),
        ..st
    }
    &&& r.conditional.view_of() == conditional_spec(m.fragments)
    &&& r.render_inline.view_of() == render_inline_spec(m.fragments)
}

fn empty_report(sha: String) -> (r: KfxSemanticEvidenceAudit)
    ensures
        r.schema_version == 1,
        r.parser_version@ == "folioforge-kfx-cont/0.6-semantic-evidence"@,
        r.input_sha256_audit_only@ == sha@,
        r.status@ == Seq::<char>::empty(),
        r.error_code is None,
        r.native.fragment_count == 0,
        r.report_state() == empty_state(),
        r.diagnostics.wf(),
        r.conditional.view_of() == (ConditionalView { field_counts: Map::empty(), type_counts: Map::empty(), evaluation: None, status: Seq::empty() }),
        r.render_inline.view_of() == (RenderInlineView { field_counts: Map::empty(), type_counts: Map::empty(), status: Seq::empty() }),
{
    let r = KfxSemanticEvidenceAudit {
        schema_version: 1,
        parser_version: owned("folioforge-kfx-cont/0.6-semantic-evidence"),
        input_sha256_audit_only: sha,
        status: String::new(),
        error_code: None,
        native: KfxSemanticEvidenceNative {
            fragment_count: 0,
            fragment_type_counts: CountMap::new(),
            field_occurrence_counts_by_fragment: CountMap::new(),
            field_value_kind_counts_by_fragment: NestedCountMap::new(),
            value_kind_counts_by_fragment: NestedCountMap::new(),
            annotation_symbol_counts: CountMap::new(),
            scalar_string_count: 0,
            scalar_string_max_utf8_bytes: 0,
        },
        candidate_field_occurrence_counts: CountMap::new(),
        candidate_samples: Vec::new(),
        conditional: KfxConditionalEvidence {
            candidate_field_occurrence_counts: CountMap::new(),
            candidate_fragment_type_counts: CountMap::new(),
            evaluation: None,
            status: String::new(),
        },
        render_inline: KfxRenderInlineEvidence {
            candidate_field_occurrence_counts: CountMap::new(),
            candidate_fragment_type_counts: CountMap::new(),
            status: String::new(),
        },
        diagnostics: CountMap::new(),
    };
    assert(sample_views(r.candidate_samples@) =~= Seq::<SampleView>::empty());
    r
}

/// Observes the Ion tree of one input without keeping its text: value
/// kinds, fields and annotations per fragment type, candidate-field samples,
/// conditional and render-inline evidence. An input that is not a `CONT`
/// container, cannot be read, or is DRM-protected gives a failed report.
pub fn audit_semantic_evidence(bytes: &[u8]) -> (r: KfxSemanticEvidenceAudit)
    ensures
        r.schema_version == 1,
        r.parser_version@ == "folioforge-kfx-cont/0.6-semantic-evidence"@,
        r.input_sha256_audit_only@ == hex_spec(sha256(bytes@)),
        match evidence_outcome(bytes@) {
            EvidenceOutcome::NotCont => failed_report(r, "KFX_INPUT_NOT_CONT"@, "input_not_cont"@),
            EvidenceOutcome::Failed(code) => failed_report(r, code, code),
            EvidenceOutcome::Drm => failed_report(r, "KFX_DRM_PROTECTED"@, "drm_protected"@),
            EvidenceOutcome::Read(m) => read_report(r, m),
        },
{
    let digest = sha256_digest(bytes);
    let sha = hex_lower(digest.as_slice());
    let mut report = empty_report(sha);
    if !(bytes.len() >= 4 && bytes[0] == 0x43 && bytes[1] == 0x4f && bytes[2] == 0x4e && bytes[3] == 0x54) {
        report.status = owned("Failed");
        report.error_code = Some(owned("KFX_INPUT_NOT_CONT"));
        report.diagnostics.increment("input_not_cont");
        return report;
    }
    let model = match parse_native(bytes, ParseMode::Compatible) {
        Ok(m) => m,
        Err(error) => {
            let code = fidelity_error_code(&error);
            report.status = owned("Failed");
            report.error_code = Some(owned(code));
            report.diagnostics.increment(code);
            return report;
        },
    };
    if model.drm_detected {
        report.status = owned("Failed");
        report.error_code = Some(owned("KFX_DRM_PROTECTED"));
        report.diagnostics.increment("drm_protected");
        return report;
    }
    let ghost m = model@;
    let mut walk = EvidenceWalk::new();
    let mut path: Vec<u64> = Vec::new();
    let mut i: usize = 0;
    while i < model.fragments.len()
        invariant
            0 <= i <= model.fragments@.len(),
            m == model@,
            walk.wf(),
            path@ == Seq::<u64>::empty(),
            walk.state() == walk_fragments(empty_state(), m.fragments.take(i as int)),
        decreases model.fragments@.len() - i,
    {
        proof {
            assert(m.fragments.take(i + 1).drop_last() =~= m.fragments.take(i as int));
            assert(m.fragments[i as int] == model.fragments@[i as int]@);
        }
        let fragment = &model.fragments[i];
        let t = decimal_string(fragment.fragment_type as u64);
        walk.type_counts.increment(t.as_str());
        collect_semantic_evidence_value(&fragment.value, fragment, &mut path, &mut walk);
        i = i + 1;
    }
    assert(m.fragments.take(i as int) =~= m.fragments);
    let conditional = audit_conditional_evidence(&model.fragments);
    let render_inline = audit_render_inline_evidence(&model.fragments);
    let warning_count = model.warnings.len();
    let feature_count = model.unknown_features.len();
    let loss_count = model.input_loss.len();
    let EvidenceWalk {
        type_counts,
        value_kinds,
        field_kinds,
        field_counts,
        annotation_counts,
        candidate_counts,
        mut diagnostics,
        string_count,
        string_max,
        samples,
    } = walk;
    diagnostics.set("parser_warning_count", warning_count);
    diagnostics.set("unknown_feature_count", feature_count);
    diagnostics.set("input_loss_count", loss_count);
    let clean = warning_count == 0 && feature_count == 0 && loss_count == 0;
    KfxSemanticEvidenceAudit {
        schema_version: 1,
        parser_version: report.parser_version,
        input_sha256_audit_only: report.input_sha256_audit_only,
        status: if clean { owned("Complete") } else { owned("CompleteWithWarnings") },
        error_code: None,
        native: KfxSemanticEvidenceNative {
            fragment_count: model.fragments.len(),
            fragment_type_counts: type_counts,
            field_occurrence_counts_by_fragment: field_counts,
            field_value_kind_counts_by_fragment: field_kinds,
            value_kind_counts_by_fragment: value_kinds,
            annotation_symbol_counts: annotation_counts,
            scalar_string_count: string_count,
            scalar_string_max_utf8_bytes: string_max,
        },
        candidate_field_occurrence_counts: candidate_counts,
        candidate_samples: samples,
        conditional,
        render_inline,
        diagnostics,
    }
}

/// A conditional branch is never selected: the evaluation is absent, or
/// `Unknown` when candidates were seen.
pub proof fn lemma_conditional_never_selected(frags: Seq<FragmentView>)
    ensures
        conditional_spec(frags).evaluation is None
            || conditional_spec(frags).evaluation == Some(KfxConditionalEvaluation::Unknown),
        conditional_spec(frags).evaluation != Some(KfxConditionalEvaluation::True),
        conditional_spec(frags).evaluation != Some(KfxConditionalEvaluation::False),
{
}

/// A fragment holds one of `fields` at least once.
pub open spec fn holds_any(f: FragmentView, fields: Seq<u64>) -> bool {
    exists|j: int| 0 <= j < fields.len() && count_field(f.value, #[trigger] fields[j]) > 0
}

/// The field ids among `fields` that occur in `f`, as keys.
pub open spec fn field_keys_of(f: FragmentView, fields: Seq<u64>) -> Set<Seq<char>> {
    Set::new(|k: Seq<char>| exists|j: int| 0 <= j < fields.len() && count_field(f.value, #[trigger] fields[j]) > 0
        && k == decimal(fields[j] as nat))
}

proof fn lemma_fragment_keys(
    a: Map<Seq<char>, usize>,
    b: Map<Seq<char>, usize>,
    f: FragmentView,
    fields: Seq<u64>,
)
    ensures
        fields_of_fragment(a, b, f, fields).1.dom()
            == (if holds_any(f, fields) { b.dom().insert(decimal(f.fragment_type as nat)) } else { b.dom() }),
        fields_of_fragment(a, b, f, fields).0.dom() == a.dom() + field_keys_of(f, fields),
    decreases fields.len(),
{
    if fields.len() == 0 {
        assert(!holds_any(f, fields));
        assert(field_keys_of(f, fields) =~= Set::empty());
        assert(a.dom() + Set::<Seq<char>>::empty() =~= a.dom());
    } else {
        let p = fields.drop_last();
        let x = fields.last();
        lemma_fragment_keys(a, b, f, p);
        let c = count_field(f.value, x);
        assert(holds_any(f, fields) <==> (holds_any(f, p) || c > 0)) by {
            if holds_any(f, p) {
                let j = choose|j: int| 0 <= j < p.len() && count_field(f.value, #[trigger] p[j]) > 0;
                assert(fields[j] == p[j]);
            }
            if c > 0 {
                assert(fields[fields.len() - 1] == x);
            }
            if holds_any(f, fields) {
                let j = choose|j: int| 0 <= j < fields.len() && count_field(f.value, #[trigger] fields[j]) > 0;
                if j < p.len() {
                    assert(p[j] == fields[j]);
                }
            }
        }
        assert(field_keys_of(f, fields) =~= field_keys_of(f, p) + (if c > 0 { set![decimal(x as nat)] } else { Set::empty() })) by {
            assert forall|k: Seq<char>| field_keys_of(f, fields).contains(k) implies
                (field_keys_of(f, p) + (if c > 0 { set![decimal(x as nat)] } else { Set::empty() })).contains(k) by {
                let j = choose|j: int| 0 <= j < fields.len() && count_field(f.value, #[trigger] fields[j]) > 0
                    && k == decimal(fields[j] as nat);
                if j < p.len() {
                    assert(p[j] == fields[j]);
                }
            }
            assert forall|k: Seq<char>| field_keys_of(f, p).contains(k) implies field_keys_of(f, fields).contains(k) by {
                let j = choose|j: int| 0 <= j < p.len() && count_field(f.value, #[trigger] p[j]) > 0
                    && k == decimal(p[j] as nat);
                assert(fields[j] == p[j]);
            }
            if c > 0 {
                assert(fields[fields.len() - 1] == x);
            }
        }
        let (a1, b1) = fields_of_fragment(a, b, f, p);
        assert(sat(c) > 0 <==> c > 0);
        if c > 0 {
            assert(fields_of_fragment(a, b, f, fields).1.dom() =~= b1.dom().insert(decimal(f.fragment_type as nat)));
            assert(fields_of_fragment(a, b, f, fields).0.dom() =~= a1.dom().insert(decimal(x as nat)));
            assert(fields_of_fragment(a, b, f, fields).1.dom() =~= (if holds_any(f, fields) { b.dom().insert(decimal(f.fragment_type as nat)) } else { b.dom() }));
            assert(fields_of_fragment(a, b, f, fields).0.dom() =~= a.dom() + field_keys_of(f, fields));
        } else {
            assert(fields_of_fragment(a, b, f, fields).0.dom() =~= a.dom() + field_keys_of(f, fields));
        }
    }
}

/// The type keys of the evidence over `frags`: the types of the fragments
/// that hold a field; the field keys: the fields that occur.
pub proof fn lemma_evidence_keys(frags: Seq<FragmentView>, fields: Seq<u64>)
    ensures
        forall|k: Seq<char>| #[trigger] field_evidence(frags, fields).1.contains_key(k) <==> exists|i: int|
            0 <= i < frags.len() && holds_any(frags[i], fields) && k == decimal(frags[i].fragment_type as nat),
        forall|k: Seq<char>| #[trigger] field_evidence(frags, fields).0.contains_key(k) <==> exists|i: int|
            0 <= i < frags.len() && #[trigger] field_keys_of(frags[i], fields).contains(k),
    decreases frags.len(),
{
    if frags.len() > 0 {
        let p = frags.drop_last();
        let f = frags.last();
        lemma_evidence_keys(p, fields);
        let (a, b) = field_evidence(p, fields);
        lemma_fragment_keys(a, b, f, fields);
        assert forall|k: Seq<char>| #[trigger] field_evidence(frags, fields).1.contains_key(k) <==> exists|i: int|
            0 <= i < frags.len() && holds_any(frags[i], fields) && k == decimal(frags[i].fragment_type as nat) by {
            if field_evidence(frags, fields).1.contains_key(k) {
                if b.contains_key(k) {
                    let i = choose|i: int| 0 <= i < p.len() && holds_any(p[i], fields) && k == decimal(p[i].fragment_type as nat);
                    assert(frags[i] == p[i]);
                } else {
                    assert(frags[frags.len() - 1] == f);
                }
            }
            if exists|i: int| 0 <= i < frags.len() && holds_any(frags[i], fields) && k == decimal(frags[i].fragment_type as nat) {
                let i = choose|i: int| 0 <= i < frags.len() && holds_any(frags[i], fields) && k == decimal(frags[i].fragment_type as nat);
                if i < p.len() {
                    assert(p[i] == frags[i]);
                } else {
                    assert(frags[i] == f);
                }
            }
        }
        assert forall|k: Seq<char>| #[trigger] field_evidence(frags, fields).0.contains_key(k) <==> exists|i: int|
            0 <= i < frags.len() && #[trigger] field_keys_of(frags[i], fields).contains(k) by {
            if field_evidence(frags, fields).0.contains_key(k) {
                if a.contains_key(k) {
                    let i = choose|i: int| 0 <= i < p.len() && #[trigger] field_keys_of(p[i], fields).contains(k);
                    assert(frags[i] == p[i]);
                } else {
                    assert(frags[frags.len() - 1] == f);
                    assert(field_keys_of(frags[frags.len() - 1], fields).contains(k));
                }
            }
            if exists|i: int| 0 <= i < frags.len() && #[trigger] field_keys_of(frags[i], fields).contains(k) {
                let i = choose|i: int| 0 <= i < frags.len() && #[trigger] field_keys_of(frags[i], fields).contains(k);
                if i < p.len() {
                    assert(p[i] == frags[i]);
                } else {
                    assert(frags[i] == f);
                }
            }
        }
    }
}

/// The conditional evidence is keyed as the audit reports it: each type key
/// is the decimal type of a fragment that holds `$171`, `$591` or `$592`,
/// and each such fragment's type is a key; each field key is one of those
/// three fields that occurs in some fragment.
pub proof fn lemma_conditional_evidence_keys(frags: Seq<FragmentView>)
    ensures
        forall|k: Seq<char>| #[trigger] conditional_spec(frags).type_counts.contains_key(k) <==> exists|i: int|
            0 <= i < frags.len() && k == decimal(frags[i].fragment_type as nat) && (count_field(frags[i].value, 171) > 0
                || count_field(frags[i].value, 591) > 0 || count_field(frags[i].value, 592) > 0),
        forall|k: Seq<char>| #[trigger] conditional_spec(frags).field_counts.contains_key(k) ==>
            k == decimal(171) || k == decimal(591) || k == decimal(592),
        forall|i: int| 0 <= i < frags.len() && count_field(frags[i].value, 171) > 0
            ==> #[trigger] conditional_spec(frags).field_counts.contains_key(decimal(171)),
{
    let fields = seq![171u64, 591u64, 592u64];
    lemma_evidence_keys(frags, fields);
    assert forall|i: int| 0 <= i < frags.len() implies (holds_any(frags[i], fields) <==> (count_field(frags[i].value, 171) > 0
        || count_field(frags[i].value, 591) > 0 || count_field(frags[i].value, 592) > 0)) by {
        assert(fields[0] == 171 && fields[1] == 591 && fields[2] == 592);
    }
    assert forall|k: Seq<char>| #[trigger] conditional_spec(frags).field_counts.contains_key(k) implies
        k == decimal(171) || k == decimal(591) || k == decimal(592) by {
        let i = choose|i: int| 0 <= i < frags.len() && #[trigger] field_keys_of(frags[i], fields).contains(k);
        let j = choose|j: int| 0 <= j < fields.len() && count_field(frags[i].value, #[trigger] fields[j]) > 0
            && k == decimal(fields[j] as nat);
    }
    assert forall|i: int| 0 <= i < frags.len() && count_field(frags[i].value, 171) > 0
        implies #[trigger] conditional_spec(frags).field_counts.contains_key(decimal(171)) by {
        assert(fields[0] == 171);
        assert(field_keys_of(frags[i], fields).contains(decimal(171)));
    }
}

/// The render-inline evidence is keyed by the types of the fragments that
/// hold `$690`, and by `$690` itself.
pub proof fn lemma_render_inline_evidence_keys(frags: Seq<FragmentView>)
    ensures
        forall|k: Seq<char>| #[trigger] render_inline_spec(frags).type_counts.contains_key(k) <==> exists|i: int|
            0 <= i < frags.len() && k == decimal(frags[i].fragment_type as nat) && count_field(frags[i].value, 690) > 0,
        forall|k: Seq<char>| #[trigger] render_inline_spec(frags).field_counts.contains_key(k) ==> k == decimal(690),
{
    let fields = seq![RENDER_INLINE_FIELD];
    lemma_evidence_keys(frags, fields);
    assert forall|i: int| 0 <= i < frags.len() implies (holds_any(frags[i], fields) <==> count_field(frags[i].value, 690) > 0) by {
        assert(fields[0] == 690);
    }
    assert forall|k: Seq<char>| #[trigger] render_inline_spec(frags).field_counts.contains_key(k) implies k == decimal(690) by {
        let i = choose|i: int| 0 <= i < frags.len() && #[trigger] field_keys_of(frags[i], fields).contains(k);
        let j = choose|j: int| 0 <= j < fields.len() && count_field(frags[i].value, #[trigger] fields[j]) > 0
            && k == decimal(fields[j] as nat);
    }
}

/// Counts only grow as fields and fragments are added.
pub open spec fn grows(m: Map<Seq<char>, usize>, n: Map<Seq<char>, usize>) -> bool {
    forall|k: Seq<char>| #[trigger] m.contains_key(k) ==> n.contains_key(k) && m[k] <= n[k]
}

proof fn lemma_fragment_grows(a: Map<Seq<char>, usize>, b: Map<Seq<char>, usize>, f: FragmentView, fields: Seq<u64>)
    ensures
        grows(a, fields_of_fragment(a, b, f, fields).0),
        grows(b, fields_of_fragment(a, b, f, fields).1),
        forall|j: int| 0 <= j < fields.len() && count_field(f.value, #[trigger] fields[j]) > 0 ==> {
            let r = fields_of_fragment(a, b, f, fields);
            &&& r.0.contains_key(decimal(fields[j] as nat)) && r.0[decimal(fields[j] as nat)] >= sat(count_field(f.value, fields[j]))
            &&& r.1.contains_key(decimal(f.fragment_type as nat)) && r.1[decimal(f.fragment_type as nat)] >= sat(count_field(f.value, fields[j]))
        },
    decreases fields.len(),
{
    if fields.len() > 0 {
        let p = fields.drop_last();
        lemma_fragment_grows(a, b, f, p);
        let (a1, b1) = fields_of_fragment(a, b, f, p);
        let x = fields.last();
        let r = fields_of_fragment(a, b, f, fields);
        assert forall|j: int| 0 <= j < fields.len() && count_field(f.value, #[trigger] fields[j]) > 0 implies {
            &&& r.0.contains_key(decimal(fields[j] as nat)) && r.0[decimal(fields[j] as nat)] >= sat(count_field(f.value, fields[j]))
            &&& r.1.contains_key(decimal(f.fragment_type as nat)) && r.1[decimal(f.fragment_type as nat)] >= sat(count_field(f.value, fields[j]))
        } by {
            if j < p.len() {
                assert(p[j] == fields[j]);
            }
        }
    }
}

/// Every occurrence count shows in the evidence: the key of a field that
/// occurs in a fragment counts at least its occurrences there, and so does
/// the key of that fragment's type.
pub proof fn lemma_evidence_counts_cover(frags: Seq<FragmentView>, fields: Seq<u64>)
    ensures
        forall|i: int, j: int| #![trigger count_field(frags[i].value, fields[j])] 0 <= i < frags.len() && 0 <= j < fields.len()
            && count_field(frags[i].value, fields[j]) > 0 ==> {
                let r = field_evidence(frags, fields);
                let c = sat(count_field(frags[i].value, fields[j]));
                &&& r.0.contains_key(decimal(fields[j] as nat)) && r.0[decimal(fields[j] as nat)] >= c
                &&& r.1.contains_key(decimal(frags[i].fragment_type as nat)) && r.1[decimal(frags[i].fragment_type as nat)] >= c
            },
    decreases frags.len(),
{
    if frags.len() > 0 {
        let p = frags.drop_last();
        let f = frags.last();
        lemma_evidence_counts_cover(p, fields);
        let (a, b) = field_evidence(p, fields);
        lemma_fragment_grows(a, b, f, fields);
        let r = field_evidence(frags, fields);
        assert forall|i: int, j: int| #![trigger count_field(frags[i].value, fields[j])] 0 <= i < frags.len() && 0 <= j < fields.len()
            && count_field(frags[i].value, fields[j]) > 0 implies {
                let c = sat(count_field(frags[i].value, fields[j]));
                &&& r.0.contains_key(decimal(fields[j] as nat)) && r.0[decimal(fields[j] as nat)] >= c
                &&& r.1.contains_key(decimal(frags[i].fragment_type as nat)) && r.1[decimal(frags[i].fragment_type as nat)] >= c
            } by {
            if i < p.len() {
                assert(p[i] == frags[i]);
                assert(field_evidence(p, fields) == (a, b));
                assert(a.contains_key(decimal(fields[j] as nat)));
                assert(b.contains_key(decimal(frags[i].fragment_type as nat)));
            } else {
                assert(frags[i] == f);
            }
        }
    }
}

pub open spec fn conditional_message() -> Seq<char> {
    "KFX conditional-content candidates were observed, but no source-backed branch relation has been proved; branches were not selected or duplicated."@
}

/// The model once unresolved conditional content is recorded: when
/// candidates were seen, a feature flag and a note of the input loss.
pub open spec fn conditional_recorded_spec(m: NativeModelView) -> NativeModelView {
    if conditional_spec(m.fragments).field_counts.is_empty() {
        m
    } else {
        NativeModelView {
            unknown_features: m.unknown_features.insert("kfx-conditional-unknown"@),
            input_loss: m.input_loss.push(conditional_message()),
            ..m
        }
    }
}

/// Records that conditional content was seen and that no branch was chosen.
pub fn record_unresolved_conditional_evidence(model: &mut NativeModel)
    requires
        old(model).wf(),
    ensures
        final(model).wf(),
        final(model)@ == conditional_recorded_spec(old(model)@),
{
    let evidence = audit_conditional_evidence(&model.fragments);
    if evidence.candidate_field_occurrence_counts.is_empty() {
        return;
    }
    model.unknown_features.insert_str("kfx-conditional-unknown");
    let ghost before = model.input_loss@;
    model.input_loss.push(owned("KFX conditional-content candidates were observed, but no source-backed branch relation has been proved; branches were not selected or duplicated."));
    assert(strs(model.input_loss@) =~= strs(before).push(conditional_message()));
}

} // verus!
