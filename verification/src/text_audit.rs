//! The text-event audit of one input: the CONT file parsed, its content
//! walked with every text event traced, and the events and the stream
//! summarised without their text unless asked.
use vstd::prelude::*;
use crate::error::{AmazonKfxError, KfxErrorView, ParseMode};
use crate::inspect::{parse_native, native_spec};
use crate::native::{has_cont_prefix, NativeModelView};
use crate::text::owned;
use crate::text_events::{state_of, pair_views, lemma_feature_states_follow_decoding, 
    KfxTextEventAudit, SemanticRoles, TextEventCapture, text_event_audit, text_source_features, text_audit_ok,
    native_features_ok, candidates_spec, story_reference_total, content_order_spec, KfxTextSourceFeatures,
};
use crate::content_walk::{ContentResources, trace_content, trace_spec, event_views, placement_views, TraceView};

verus! {

/// The roles that building the book's documents finds: footnote or
/// endnote references, MathML, figures, images and text.
#[derive(Clone, Copy, Debug)]
pub struct BookRoles {
    pub footnotes: bool,
    pub mathml: bool,
    pub figure: bool,
    pub image: bool,
    pub text: bool,
}

pub open spec fn header_message() -> Seq<char> {
    "text-event audit requires an Amazon CONT KFX input"@
}

/// The roles of the audit: those of the book, and whether the content
/// walk placed any image.
pub open spec fn roles_spec(b: BookRoles, t: TraceView) -> SemanticRoles {
    SemanticRoles {
        footnotes: b.footnotes,
        mathml: b.mathml,
        figure: b.figure,
        image: b.image,
        text: b.text,
        native_image_occurrences: t.images.len() > 0,
    }
}

/// `a` is the text-event audit of `bytes`, whose book is `m`: the source
/// features of `m`, and the events the walk of its content traced.
pub open spec fn text_events_ok(
    a: KfxTextEventAudit,
    bytes: Seq<u8>,
    m: NativeModelView,
    resources: ContentResources,
    roles: BookRoles,
    include_private_text: bool,
) -> bool {
    let t = trace_spec(m, resources, content_order_spec(m));
    exists|features: KfxTextSourceFeatures, capture: TextEventCapture| {
        &&& native_features_ok(features, m)
        &&& event_views(capture.events@) == t.events
        &&& capture.unresolved_text_reference_count == t.unresolved
        &&& capture.include_private_text == include_private_text
        &&& #[trigger] text_audit_ok(a, bytes, features, candidates_spec(m), capture, roles_spec(roles, t))
    }
}

/// The text-event audit of one input. It must be a CONT file, parse and
/// not be DRM protected; each text event of the content, in content order,
/// is recorded with its source, path and digest, its text only when
/// `include_private_text` is set. `resources` holds what resolving the
/// book's resources gave for each container, and `roles` what building its
/// documents found.
pub fn audit_text_events(
    bytes: &[u8],
    include_private_text: bool,
    resources: &ContentResources,
    roles: BookRoles,
) -> (r: Result<KfxTextEventAudit, AmazonKfxError>)
    requires
        native_spec(seq![bytes@], ParseMode::Compatible) matches Ok(m) ==> story_reference_total(m.fragments) <= usize::MAX,
    ensures
        !has_cont_prefix(bytes@) ==> (r matches Err(e) && e@ == KfxErrorView::InvalidHeader(header_message())),
        has_cont_prefix(bytes@) ==> (native_spec(seq![bytes@], ParseMode::Compatible) matches Err(e)
            ==> (r matches Err(x) && x@ == e)),
        has_cont_prefix(bytes@) ==> (native_spec(seq![bytes@], ParseMode::Compatible) matches Ok(m)
            ==> (m.drm_detected ==> (r matches Err(x) && x@ == KfxErrorView::ProtectedContent))),
        has_cont_prefix(bytes@) ==> (native_spec(seq![bytes@], ParseMode::Compatible) matches Ok(m)
            ==> (!m.drm_detected ==> (r matches Ok(a)
                && text_events_ok(a, bytes@, m, *resources, roles, include_private_text)))),
{
    if !(bytes.len() >= 4 && bytes[0] == 0x43 && bytes[1] == 0x4f && bytes[2] == 0x4e && bytes[3] == 0x54) {
        let e = AmazonKfxError::InvalidHeader(owned("text-event audit requires an Amazon CONT KFX input"));
        proof {
            reveal_strlit("text-event audit requires an Amazon CONT KFX input");
        }
        return Err(e);
    }
    let model = match parse_native(bytes, ParseMode::Compatible) {
        Ok(m) => m,
        Err(e) => return Err(e),
    };
    assert(model.drm_detected == model@.drm_detected);
    if model.drm_detected {
        return Err(AmazonKfxError::ProtectedContent);
    }
    let ghost m = model@;
    let (features, candidates) = text_source_features(&model);
    let trace = trace_content(&model, resources, include_private_text);
    let ghost t = trace_spec(m, *resources, content_order_spec(m));
    let semantic = SemanticRoles {
        footnotes: roles.footnotes,
        mathml: roles.mathml,
        figure: roles.figure,
        image: roles.image,
        text: roles.text,
        native_image_occurrences: trace.native.len() > 0,
    };
    proof {
        assert(placement_views(trace.native@).len() == trace.native@.len());
        assert(semantic == roles_spec(roles, t));
    }
    let ghost capture = trace.capture;
    let a = text_event_audit(bytes, features, candidates, trace.capture, semantic);
    proof {
        assert(text_audit_ok(a, bytes@, features, candidates_spec(m), capture, roles_spec(roles, t)));
        assert(text_events_ok(a, bytes@, m, *resources, roles, include_private_text));
    }
    Ok(a)
}

/// The text-event audit keeps the text of the book out unless asked: when
/// private text is not included, no event carries its text.
pub proof fn lemma_text_events_keep_text_private(
    a: KfxTextEventAudit,
    bytes: Seq<u8>,
    m: NativeModelView,
    resources: ContentResources,
    roles: BookRoles,
)
    requires
        text_events_ok(a, bytes, m, resources, roles, false),
    ensures
        forall|k: int| 0 <= k < a.events@.len() ==> (#[trigger] a.events@[k]).text is None,
{
    let t = trace_spec(m, resources, content_order_spec(m));
    let (features, capture) = choose|features: KfxTextSourceFeatures, capture: TextEventCapture| {
        &&& native_features_ok(features, m)
        &&& event_views(capture.events@) == t.events
        &&& capture.unresolved_text_reference_count == t.unresolved
        &&& capture.include_private_text == false
        &&& #[trigger] text_audit_ok(a, bytes, features, candidates_spec(m), capture, roles_spec(roles, t))
    };
    assert forall|k: int| 0 <= k < a.events@.len() implies (#[trigger] a.events@[k]).text is None by {
        assert(crate::text_events::event_ok(a.events@[k], k as nat, capture.events@[k], capture.include_private_text));
    }
}

/// In the text-event audit, footnotes are `Mapped` whenever building the
/// book found footnote or endnote references, and MathML is `Mapped`
/// whenever it found MathML.
pub proof fn lemma_text_events_map_decoded_features(
    a: KfxTextEventAudit,
    bytes: Seq<u8>,
    m: NativeModelView,
    resources: ContentResources,
    roles: BookRoles,
    include_private_text: bool,
)
    requires
        text_events_ok(a, bytes, m, resources, roles, include_private_text),
    ensures
        roles.footnotes ==> state_of(pair_views(a.source_features.feature_states@), "footnotes"@) == Some("Mapped"@),
        roles.mathml ==> state_of(pair_views(a.source_features.feature_states@), "mathml"@) == Some("Mapped"@),
        roles.figure ==> state_of(pair_views(a.source_features.feature_states@), "illustrated_layout"@) == Some("Mapped"@),
        a.source_features.has_footnotes == Some(roles.footnotes),
{
    let t = trace_spec(m, resources, content_order_spec(m));
    let (features, capture) = choose|features: KfxTextSourceFeatures, capture: TextEventCapture| {
        &&& native_features_ok(features, m)
        &&& event_views(capture.events@) == t.events
        &&& capture.unresolved_text_reference_count == t.unresolved
        &&& capture.include_private_text == include_private_text
        &&& #[trigger] text_audit_ok(a, bytes, features, candidates_spec(m), capture, roles_spec(roles, t))
    };
    lemma_feature_states_follow_decoding(candidates_spec(m), roles_spec(roles, t));
}

} // verus!
