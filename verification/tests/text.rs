use folio_kfx::links::KfxTextStyleEvent;
use folio_kfx::native::{NativeFragment, NativeModel, NativeContainerOwned};
use folio_kfx::ion::IonValue;
use folio_kfx::reading::{FIELD_CONTENT_FRAGMENT_SYMBOL, FIELD_READING_ORDERS, FIELD_READING_ORDER_SECTIONS};
use folio_kfx::symbols::SymbolTable;
use folio_kfx::text_digest::{
    normalized_text_digest, summarize_captured_text, unify_line_break_chars, CapturedTextUnit,
    KfxFidelityText, TextTraceCapture,
};
use folio_kfx::text_events::{
    text_event_audit, text_event_record, text_feature_states, text_source_features,
    text_stream_summary, trace_alias, CapturedKfxTextEvent, SemanticRoles, TextEventCapture,
    TextFeatureCandidates,
};
use sha2::Digest;

fn hex(bytes: &[u8]) -> String {
    bytes.iter().map(|b| format!("{:02x}", b)).collect()
}

fn empty_text_summary() -> KfxFidelityText {
    KfxFidelityText {
        text_node_count: 0,
        unicode_scalar_count: 0,
        normalized_sha256_audit_only: String::new(),
        source_text_segment_count: 0,
        unresolved_text_reference_count: 0,
        source_unicode_scalar_count: 0,
        source_normalized_sha256_audit_only: String::new(),
        semantic_text_segment_count: 0,
        semantic_unicode_scalar_count: 0,
        semantic_normalized_sha256_audit_only: String::new(),
        source_fragments: Vec::new(),
        semantic_documents: Vec::new(),
        ir_documents: Vec::new(),
        normalization: String::new(),
    }
}

#[test]
fn fidelity_text_hash_uses_unicode_normalization_and_scalar_counts() {
    let composed = normalized_text_digest("é\r\n中😀");
    let decomposed = normalized_text_digest("e\u{301}\n中😀");

    assert_eq!(composed, decomposed);
    assert_eq!(composed.1, 4);
}

#[test]
fn normalized_digest_hashes_the_nfc_utf8_bytes() {
    let (digest, count) = normalized_text_digest("e\u{301}\r");
    assert_eq!(count, 2);
    assert_eq!(digest, hex(&sha2::Sha256::digest("é\n".as_bytes())));
}

#[test]
fn line_breaks_are_unified() {
    let chars: Vec<char> = "a\r\nb\rc\n\r\r\n".chars().collect();
    let unified: String = unify_line_break_chars(&chars).into_iter().collect();
    assert_eq!(unified, "a\nb\nc\n\n\n");
}

#[test]
fn fidelity_text_trace_emits_ordered_hashes_and_counts_without_text() {
    let capture = TextTraceCapture {
        source_fragments: vec![
            CapturedTextUnit {
                content_fragment_order: 0,
                document_order: None,
                text_segment_count: 2,
                text: "e\u{301}".to_owned(),
            },
            CapturedTextUnit {
                content_fragment_order: 1,
                document_order: None,
                text_segment_count: 1,
                text: "private body text 😀".to_owned(),
            },
        ],
        semantic_documents: vec![CapturedTextUnit {
            content_fragment_order: 0,
            document_order: Some(0),
            text_segment_count: 2,
            text: "é".to_owned(),
        }],
        unresolved_text_reference_count: 4,
    };
    let mut summary = empty_text_summary();

    summarize_captured_text(&capture, &mut summary);

    assert_eq!(summary.source_text_segment_count, 3);
    assert_eq!(summary.source_unicode_scalar_count, 20);
    assert_eq!(summary.source_fragments[0].unicode_scalar_count, 1);
    assert_eq!(summary.unresolved_text_reference_count, 4);
    assert_eq!(summary.semantic_text_segment_count, 2);
    assert_eq!(summary.semantic_unicode_scalar_count, 1);
    let rendered = format!("{:?}", summary);
    assert!(!rendered.contains("private body text"));
    assert!(!rendered.contains("é"));
}

#[test]
fn captured_text_keeps_document_order_only_for_semantic_documents() {
    let capture = TextTraceCapture {
        source_fragments: vec![CapturedTextUnit {
            content_fragment_order: 3,
            document_order: Some(9),
            text_segment_count: 1,
            text: "x".to_owned(),
        }],
        semantic_documents: vec![CapturedTextUnit {
            content_fragment_order: 3,
            document_order: Some(9),
            text_segment_count: 1,
            text: "x".to_owned(),
        }],
        unresolved_text_reference_count: 0,
    };
    let mut summary = empty_text_summary();
    summarize_captured_text(&capture, &mut summary);
    assert_eq!(summary.source_fragments[0].document_order, None);
    assert_eq!(summary.source_fragments[0].content_fragment_order, Some(3));
    assert_eq!(summary.semantic_documents[0].document_order, Some(9));
    assert_eq!(summary.source_normalized_sha256_audit_only, summary.semantic_normalized_sha256_audit_only);
}

fn captured(text: &str, story: Option<&str>, position: Option<u32>) -> CapturedKfxTextEvent {
    CapturedKfxTextEvent {
        section_id: Some("S001".to_owned()),
        story_id: story.map(str::to_owned),
        source_fragment: "F001".to_owned(),
        source_fragment_order: 0,
        eid: 700,
        source_path: "$146[0].$145".to_owned(),
        source_position: position,
        text_kind: "string_reference".to_owned(),
        text: text.to_owned(),
        adjacent_style_events: vec![KfxTextStyleEvent {
            list_index: 0,
            text_offset: Some(1),
            text_length: Some(2),
            style_symbol_id: Some(617),
        }],
    }
}

#[test]
fn text_event_records_are_content_free_unless_asked() {
    let record = text_event_record(0, captured("private body text", None, None), false);
    assert_eq!(record.trace_id, "T000001");
    assert_eq!(record.text, None);
    assert_eq!(record.text_len, 17);
    assert_eq!(record.context, "Body");
    assert_eq!(record.context_basis, "KFX_type_259_content_fragment");
    assert_eq!(record.source_position_kind, "not_present");
    assert_eq!(record.text_hash_raw_audit_only, hex(&sha2::Sha256::digest(b"private body text")));
    assert_eq!(record.adjacent_style_events[0].style_symbol_id, Some(617));
    assert!(!format!("{:?}", record).contains("private body text"));

    let private = text_event_record(41, captured("visible", Some("ST001"), Some(9)), true);
    assert_eq!(private.trace_id, "T000042");
    assert_eq!(private.text.as_deref(), Some("visible"));
    assert_eq!(private.context, "Story");
    assert_eq!(private.context_basis, "reading_order_section_story_reference");
    assert_eq!(private.source_position_kind, "field_155_kfx_navigation_target_id");
}

#[test]
fn trace_aliases_are_padded_to_six_digits() {
    assert_eq!(trace_alias("T", 1), "T000001");
    assert_eq!(trace_alias("T", 1234567), "T1234567");
}

#[test]
fn text_stream_summary_hashes_the_joined_text() {
    let events = vec![captured("e\u{301}", None, None), captured("\r\n", None, None)];
    let stream = text_stream_summary(&events, 3);
    assert_eq!(stream.event_count, 2);
    assert_eq!(stream.unresolved_text_reference_count, 3);
    assert_eq!(stream.raw_unicode_scalar_count, 4);
    assert_eq!(stream.raw_sha256_audit_only, hex(&sha2::Sha256::digest("e\u{301}\r\n".as_bytes())));
    assert_eq!(stream.normalized_unicode_scalar_count, 2);
    assert_eq!(stream.normalized_sha256_audit_only, hex(&sha2::Sha256::digest("é\n".as_bytes())));
}

fn no_candidates() -> TextFeatureCandidates {
    TextFeatureCandidates { conditional: false, render_inline: false, note: false, math: false, illustrated: false, ruby: false }
}

fn no_roles() -> SemanticRoles {
    SemanticRoles { footnotes: false, mathml: false, figure: false, image: false, text: false, native_image_occurrences: false }
}

#[test]
fn feature_states_follow_candidates_and_decoded_roles() {
    let (states, undecoded) = text_feature_states(no_candidates(), no_roles());
    assert!(states.is_empty());
    assert_eq!(undecoded, vec!["creator".to_owned(), "creator_version".to_owned()]);

    let candidates = TextFeatureCandidates { conditional: true, render_inline: true, note: true, math: true, illustrated: true, ruby: true };
    let roles = SemanticRoles { footnotes: false, mathml: true, figure: false, image: true, text: true, native_image_occurrences: true };
    let (states, undecoded) = text_feature_states(candidates, roles);
    let pairs: Vec<(&str, &str)> = states.iter().map(|(k, v)| (k.as_str(), v.as_str())).collect();
    assert_eq!(
        pairs,
        vec![
            ("conditional_content", "Unknown"),
            ("footnotes", "Unknown"),
            ("illustrated_layout", "Approximated"),
            ("mathml", "Mapped"),
            ("non_image_render_inline", "Unknown"),
            ("ruby", "Mapped"),
        ]
    );
    assert_eq!(
        undecoded,
        vec![
            "creator".to_owned(),
            "creator_version".to_owned(),
            "conditional_content".to_owned(),
            "footnotes".to_owned(),
            "non_image_render_inline".to_owned(),
        ]
    );
}

fn reading_order_model() -> NativeModel {
    let mut symbols = SymbolTable::new();
    for (id, name) in [(1u64, "section-b"), (2, "section-a"), (10, "section-b"), (11, "section-a"), (20, "story-b"), (21, "story-a")] {
        symbols.names.insert(id, name.to_owned());
    }
    let container = NativeContainerOwned { input_index: 0, byte_offset: 0, entity_count: 5, symbols };
    let frag = |entity_id: u32, fragment_type: u32, value: IonValue| NativeFragment { container_index: 0, entity_id, fragment_type, value };
    let mut model = NativeModel::new();
    model.containers = vec![container];
    model.fragments = vec![
        frag(0, 538, IonValue::Struct(vec![(
            FIELD_READING_ORDERS,
            IonValue::List(vec![IonValue::Struct(vec![(
                FIELD_READING_ORDER_SECTIONS,
                IonValue::List(vec![IonValue::Symbol(1), IonValue::Symbol(2)]),
            )])]),
        )])),
        frag(11, 260, IonValue::Struct(vec![(FIELD_CONTENT_FRAGMENT_SYMBOL, IonValue::Symbol(21))])),
        frag(21, 259, IonValue::Null),
        frag(10, 260, IonValue::Struct(vec![(FIELD_CONTENT_FRAGMENT_SYMBOL, IonValue::Symbol(20))])),
        frag(20, 259, IonValue::Null),
    ];
    model
}

#[test]
fn source_features_count_stories_in_reading_order() {
    let model = reading_order_model();
    let (features, candidates) = text_source_features(&model);
    assert_eq!(features.has_stories, Some(true));
    assert_eq!(features.story_definitions, 2);
    assert_eq!(features.story_references, 2);
    assert_eq!(features.stories_traversed_unique, 2);
    assert_eq!(features.stories_emitted_more_than_once, 0);
    assert_eq!(features.story_definitions_not_emitted, 0);
    assert_eq!(features.has_conditional_content, Some(false));
    assert_eq!(features.has_ruby, Some(false));
    assert!(!candidates.ruby);
    assert!(features.feature_states.is_empty());
}

#[test]
fn text_event_audit_assembles_stream_events_and_features() {
    let model = reading_order_model();
    let (features, candidates) = text_source_features(&model);
    let capture = TextEventCapture {
        include_private_text: false,
        unresolved_text_reference_count: 1,
        events: vec![captured("one", None, None), captured("two", Some("ST001"), Some(4))],
    };
    let audit = text_event_audit(b"CONT-bytes", features, candidates, capture, no_roles());
    assert_eq!(audit.schema_version, 1);
    assert_eq!(audit.status, "Complete");
    assert_eq!(audit.input_sha256_audit_only, hex(&sha2::Sha256::digest(b"CONT-bytes")));
    assert_eq!(audit.events.len(), 2);
    assert_eq!(audit.events[1].trace_id, "T000002");
    assert_eq!(audit.events[1].context, "Story");
    assert_eq!(audit.stream.event_count, 2);
    assert_eq!(audit.stream.raw_unicode_scalar_count, 6);
    assert_eq!(audit.source_features.has_footnotes, Some(false));
    assert_eq!(audit.source_features.has_mathml, Some(false));
    assert_eq!(audit.source_features.story_definitions, 2);
    assert!(!audit.source_features.has_image_occurrences);
}

use folio_kfx::style::{kfx_computed_style, KfxComputedStyle};

#[test]
fn kfx_local_style_names_do_not_share_heading_presentation_across_books() {
    let page_number = kfx_computed_style("s1r", "001", false);
    assert_eq!(page_number.get("font-size"), None);
    assert_eq!(page_number.get("margin").as_deref(), Some("1.34em 0 0"));

    let toc_title = kfx_computed_style("s1r", "目录", false);
    assert_eq!(toc_title.get("font-size").as_deref(), Some("2em"));

    let ordinary_s37 = kfx_computed_style("s37", "正文", false);
    assert_eq!(ordinary_s37.get("font-size"), None);
    assert_eq!(ordinary_s37.get("margin").as_deref(), Some("1em 0"));
}

#[test]
fn computed_styles_follow_the_stylesheet_table() {
    let heading = kfx_computed_style("s37", "Part 1", true);
    assert_eq!(heading.get("font-size").as_deref(), Some("1.125em"));
    assert_eq!(heading.get("margin").as_deref(), Some("1.75633em 0 4.1002em"));
    assert_eq!(heading.get("display").as_deref(), Some("block"));

    let image_box = kfx_computed_style("s57z", "", false);
    assert_eq!(image_box.get("display"), None);
    assert_eq!(image_box.properties.len(), 2);

    let centered = kfx_computed_style("sh", "", false);
    assert_eq!(centered.properties.len(), 2);
    assert_eq!(centered.get("margin").as_deref(), Some("1.3025em auto"));

    let unknown = kfx_computed_style("zzz", "", false);
    assert_eq!(
        unknown.properties,
        vec![("display".to_owned(), "block".to_owned()), ("margin".to_owned(), "1em 0".to_owned())]
    );
}

#[test]
fn style_properties_are_read_back_after_they_are_set() {
    let style = KfxComputedStyle::new().with("a", "1").with("b", "2").with("a", "3");
    assert_eq!(style.get("a").as_deref(), Some("3"));
    assert_eq!(style.get("b").as_deref(), Some("2"));
    assert_eq!(style.properties.len(), 2);
    assert_eq!(style.properties[0].0, "a");
}
