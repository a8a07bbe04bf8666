//! Reading a whole KFX file-set into the native model, and the input report
//! of [`inspect`].
use vstd::prelude::*;
use crate::decode::{
    CONTENT_FRAGMENT_TYPE, decode_document_symbols, decode_fragment_values, doc_symbols_spec,
    fragment_values_spec, limitations_spec, record_native_limitations, recovery_actions,
    recovery_actions_spec,
};
use crate::error::{AmazonKfxError, KfxErrorView, ParseMode};
use crate::native::{
    ContainerOwnedView, FragmentView, NativeModel, NativeModelView, empty_model_view, input_views,
    inputs_spec, read_containers, strs,
};
use crate::strset::{sorted_unique, string_views};
use crate::text::{owned, decimal, decimal_string, join2};
use crate::content::sat;

verus! {

/// A diagnostic about the identity of one external resource record.
#[derive(Clone, Debug)]
pub struct KfxResourceDiagnostic {
    pub code: String,
    pub message: String,
    pub location: Option<String>,
    pub location_symbol_id: Option<u64>,
    pub location_source: String,
    pub normalized_location: Option<String>,
    pub location_field_id: u64,
    pub input_index: usize,
    pub container_origin: usize,
    pub external_resource_entity_id: u32,
    pub body_reference_count: usize,
    pub visible_placement_count: usize,
}

/// What reading a KFX input found.
#[derive(Clone, Debug)]
pub struct InputReport {
    pub detected_format: String,
    pub parser_version: String,
    pub container_count: usize,
    pub entity_count: usize,
    pub fragment_count: usize,
    pub symbol_count: usize,
    pub resource_count: usize,
    pub document_count: usize,
    pub drm_detected: bool,
    pub warnings: Vec<String>,
    pub unknown_features: Vec<String>,
    pub recovery_actions: Vec<String>,
    pub input_loss: Vec<String>,
    pub resource_identity_diagnostics: Vec<KfxResourceDiagnostic>,
}

/// The model of a whole file-set: every container of every input, then the
/// document string pools, the fragment pass and the limitations.
pub open spec fn native_spec(inputs: Seq<Seq<u8>>, mode: ParseMode) -> Result<NativeModelView, KfxErrorView> {
    if inputs.len() == 0 {
        Err(KfxErrorView::InvalidHeader("KFX file-set contains no inputs"@))
    } else {
        match inputs_spec(empty_model_view(), inputs, inputs.len() as int, mode) {
            Err(e) => Err(e),
            Ok(m1) => match doc_symbols_spec(m1, mode) {
                Err(e) => Err(e),
                Ok(m2) => match fragment_values_spec(m2, mode) {
                    Err(e) => Err(e),
                    Ok(m3) => Ok(limitations_spec(m3)),
                },
            },
        }
    }
}

/// Reads a file-set into the native model.
pub fn parse_native_sources(inputs: &[&[u8]], mode: ParseMode) -> (r: Result<NativeModel, AmazonKfxError>)
    ensures
        match native_spec(input_views(inputs@), mode) {
            Ok(m) => r matches Ok(x) && x@ == m && x.wf(),
            Err(e) => r matches Err(x) && x@ == e,
        },
{
    let mut model = match read_containers(inputs, mode) {
        Ok(m) => m,
        Err(e) => {
            return Err(e);
        },
    };
    match decode_document_symbols(&mut model, mode) {
        Ok(()) => {},
        Err(e) => {
            return Err(e);
        },
    }
    match decode_fragment_values(&mut model, mode) {
        Ok(()) => {},
        Err(e) => {
            return Err(e);
        },
    }
    record_native_limitations(&mut model);
    Ok(model)
}

/// Reads one KFX input into the native model.
pub fn parse_native(bytes: &[u8], mode: ParseMode) -> (r: Result<NativeModel, AmazonKfxError>)
    ensures
        match native_spec(seq![bytes@], mode) {
            Ok(m) => r matches Ok(x) && x@ == m && x.wf(),
            Err(e) => r matches Err(x) && x@ == e,
        },
{
    let inputs: [&[u8]; 1] = [bytes];
    proof {
        assert(input_views(inputs@) =~= seq![bytes@]);
    }
    parse_native_sources(&inputs, mode)
}

/// The number of entities of the containers of a model.
pub open spec fn entity_total(cs: Seq<ContainerOwnedView>) -> nat
    decreases cs.len(),
{
    if cs.len() == 0 {
        0
    } else {
        entity_total(cs.drop_last()) + cs.last().entity_count as nat
    }
}

/// The number of content (`$259`) fragments.
pub open spec fn content_fragment_count(fs: Seq<FragmentView>) -> nat
    decreases fs.len(),
{
    if fs.len() == 0 {
        0
    } else {
        content_fragment_count(fs.drop_last()) + if fs.last().fragment_type == CONTENT_FRAGMENT_TYPE {
            1nat
        } else {
            0nat
        }
    }
}

pub struct InputReportView {
    pub detected_format: Seq<char>,
    pub parser_version: Seq<char>,
    pub container_count: usize,
    pub entity_count: usize,
    pub fragment_count: usize,
    pub symbol_count: usize,
    pub resource_count: usize,
    pub document_count: usize,
    pub drm_detected: bool,
    pub warnings: Seq<Seq<char>>,
    pub unknown_features: Seq<Seq<char>>,
    pub recovery_actions: Seq<Seq<char>>,
    pub input_loss: Seq<Seq<char>>,
    pub diagnostic_count: nat,
}

impl View for InputReport {
    type V = InputReportView;

    open spec fn view(&self) -> InputReportView {
        InputReportView {
            detected_format: self.detected_format@,
            parser_version: self.parser_version@,
            container_count: self.container_count,
            entity_count: self.entity_count,
            fragment_count: self.fragment_count,
            symbol_count: self.symbol_count,
            resource_count: self.resource_count,
            document_count: self.document_count,
            drm_detected: self.drm_detected,
            warnings: strs(self.warnings@),
            unknown_features: strs(self.unknown_features@),
            recovery_actions: strs(self.recovery_actions@),
            input_loss: strs(self.input_loss@),
            diagnostic_count: self.resource_identity_diagnostics@.len(),
        }
    }
}

/// The report of one read input. Counts that could exceed `usize` saturate.
/// The unknown features are listed once each, in ascending order.
pub open spec fn report_spec(r: InputReportView, m: NativeModelView, mode: ParseMode, diagnostics: nat) -> bool {
    &&& r.detected_format == "Amazon KFX CONT"@
    &&& r.parser_version == "folioforge-kfx-cont/0.3"@
    &&& r.container_count == m.containers.len()
    &&& r.entity_count == sat(entity_total(m.containers))
    &&& r.fragment_count == m.fragments.len()
    &&& r.symbol_count == m.symbols.names.dom().len()
    &&& r.resource_count == m.resources.len()
    &&& r.document_count == sat(content_fragment_count(m.fragments))
    &&& r.drm_detected == m.drm_detected
    &&& r.warnings == m.warnings
    &&& sorted_unique(r.unknown_features)
    &&& r.unknown_features.to_set() == m.unknown_features
    &&& r.recovery_actions == recovery_actions_spec(mode, m)
    &&& r.input_loss == m.input_loss
    &&& r.diagnostic_count == diagnostics
}

/// The content fragments of a list: those of type `$259`.
pub open spec fn is_content_fragment(f: FragmentView) -> bool {
    f.fragment_type == 259
}

proof fn lemma_content_count_is_filter(fs: Seq<FragmentView>)
    ensures
        content_fragment_count(fs) == fs.filter(|f: FragmentView| is_content_fragment(f)).len(),
    decreases fs.len(),
{
    reveal(Seq::filter);
    if fs.len() > 0 {
        lemma_content_count_is_filter(fs.drop_last());
    }
}

/// The documents an inspection reports are the content fragments (`$259`)
/// of the book, counted (saturating): fragments of other types never count.
pub proof fn lemma_document_count_is_content_fragments(r: InputReportView, m: NativeModelView, mode: ParseMode, d: nat)
    requires
        report_spec(r, m, mode, d),
    ensures
        r.document_count == sat(m.fragments.filter(|f: FragmentView| is_content_fragment(f)).len()),
{
    lemma_content_count_is_filter(m.fragments);
}

/// Adding a fragment to a book raises its document count by one when it is
/// a content fragment, and leaves it unchanged otherwise.
pub proof fn lemma_document_count_step(fs: Seq<FragmentView>, f: FragmentView)
    ensures
        f.fragment_type == 259 ==> content_fragment_count(fs.push(f)) == content_fragment_count(fs) + 1,
        f.fragment_type != 259 ==> content_fragment_count(fs.push(f)) == content_fragment_count(fs),
        content_fragment_count(fs) <= fs.len(),
    decreases fs.len(),
{
    assert(fs.push(f).drop_last() =~= fs);
    lemma_content_count_is_filter(fs);
    fs.lemma_filter_len(|x: FragmentView| is_content_fragment(x));
}

pub proof fn lemma_sat_step(a: nat, b: nat)
    ensures
        (if sat(a) + sat(b) > usize::MAX { usize::MAX } else { (sat(a) + sat(b)) as usize }) == sat(a + b),
{
}

/// What resolving the resource paths of a book reports: its diagnostics,
/// and how many resource records found no exact association.
#[derive(Debug)]
pub struct ResolutionReport {
    pub diagnostics: Vec<KfxResourceDiagnostic>,
    pub unresolved_records: usize,
}

pub open spec fn association_loss_message(n: usize) -> Seq<char> {
    decimal(n as nat) + " KFX resource metadata records have no unique exact `$165` location to `$417` fid association."@
}

/// The model once the limits of its resource identity are recorded: when
/// records stay unresolved, an unknown feature and an input loss.
pub open spec fn identity_limited(m: NativeModelView, unresolved_records: usize) -> NativeModelView {
    if unresolved_records > 0 {
        NativeModelView {
            unknown_features: m.unknown_features.insert("kfx-resource-byte-association-incomplete"@),
            input_loss: m.input_loss.push(association_loss_message(unresolved_records)),
            ..m
        }
    } else {
        m
    }
}

/// Records what resource resolution left unresolved in the model.
pub fn record_resource_identity_limitations(model: &mut NativeModel, unresolved_records: usize)
    requires
        old(model).wf(),
    ensures
        final(model).wf(),
        final(model)@ == identity_limited(old(model)@, unresolved_records),
{
    if unresolved_records > 0 {
        let ghost before = model.input_loss@;
        model.unknown_features.insert_str("kfx-resource-byte-association-incomplete");
        let n = decimal_string(unresolved_records as u64);
        let message = join2(n.as_str(), " KFX resource metadata records have no unique exact `$165` location to `$417` fid association.");
        proof {
            reveal_strlit("kfx-resource-byte-association-incomplete");
            reveal_strlit(" KFX resource metadata records have no unique exact `$165` location to `$417` fid association.");
        }
        model.input_loss.push(message);
        assert(strs(model.input_loss@) =~= strs(before).push(association_loss_message(unresolved_records)));
    }
}

/// Reads one KFX input and reports what it holds: counts of containers,
/// entities, fragments, symbols, resources and content documents, the
/// warnings, unknown features and input loss of the read, and the recovery
/// actions of a recovery-mode read, with what resource resolution reported
/// (`resolution`) recorded in the model first.
pub fn inspect(bytes: &[u8], mode: ParseMode, resolution: ResolutionReport) -> (r: Result<InputReport, AmazonKfxError>)
    ensures
        match native_spec(seq![bytes@], mode) {
            Ok(m) => r matches Ok(report) && report_spec(
                report@,
                identity_limited(m, resolution.unresolved_records),
                mode,
                resolution.diagnostics@.len(),
            ),
            Err(e) => r matches Err(x) && x@ == e,
        },
{
    let mut model = match parse_native(bytes, mode) {
        Ok(m) => m,
        Err(e) => {
            return Err(e);
        },
    };
    record_resource_identity_limitations(&mut model, resolution.unresolved_records);
    let ghost m = model@;
    let actions = recovery_actions(mode, &model);
    let mut entity_count: usize = 0;
    let mut i: usize = 0;
    while i < model.containers.len()
        invariant
            0 <= i <= model.containers@.len(),
            m == model@,
            entity_count == sat(entity_total(m.containers.take(i as int))),
        decreases model.containers@.len() - i,
    {
        proof {
            assert(m.containers.take(i + 1).drop_last() =~= m.containers.take(i as int));
            assert(m.containers[i as int] == model.containers@[i as int]@);
            lemma_sat_step(entity_total(m.containers.take(i as int)), model.containers@[i as int].entity_count as nat);
        }
        entity_count = entity_count.saturating_add(model.containers[i].entity_count);
        i = i + 1;
    }
    assert(m.containers.take(i as int) =~= m.containers);
    let mut document_count: usize = 0;
    let mut j: usize = 0;
    while j < model.fragments.len()
        invariant
            0 <= j <= model.fragments@.len(),
            m == model@,
            document_count == sat(content_fragment_count(m.fragments.take(j as int))),
        decreases model.fragments@.len() - j,
    {
        proof {
            assert(m.fragments.take(j + 1).drop_last() =~= m.fragments.take(j as int));
            assert(m.fragments[j as int] == model.fragments@[j as int]@);
        }
        if model.fragments[j].fragment_type == CONTENT_FRAGMENT_TYPE {
            proof {
                lemma_sat_step(content_fragment_count(m.fragments.take(j as int)), 1);
            }
            document_count = document_count.saturating_add(1);
        }
        j = j + 1;
    }
    assert(m.fragments.take(j as int) =~= m.fragments);
    let features = model.unknown_features.to_vec();
    proof {
        assert(strs(features@) =~= string_views(features@));
    }
    let container_count = model.containers.len();
    let fragment_count = model.fragments.len();
    let symbol_count = model.symbols.names.len();
    let resource_count = model.resources.len();
    let drm_detected = model.drm_detected;
    proof {
        assert(m.symbols.names.dom() =~= model.symbols.names@.dom());
    }
    let NativeModel { warnings, input_loss, .. } = model;
    Ok(InputReport {
        detected_format: owned("Amazon KFX CONT"),
        parser_version: owned("folioforge-kfx-cont/0.3"),
        container_count,
        entity_count,
        fragment_count,
        symbol_count,
        resource_count,
        document_count,
        drm_detected,
        warnings,
        unknown_features: features,
        recovery_actions: actions,
        input_loss,
        resource_identity_diagnostics: resolution.diagnostics,
    })
}

} // verus!
