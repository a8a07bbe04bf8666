use std::collections::BTreeMap;

use folio_kfx::container::{
    CONT_VERSION, ENTITY_INDEX_ENTRY, ENTY_HEADER_LEN, FIELD_CONTAINER_ID, FIELD_INDEX_LENGTH,
    FIELD_INDEX_OFFSET,
};
use folio_kfx::error::{AmazonKfxError, ParseMode};
use folio_kfx::evidence::{
    audit_conditional_evidence, audit_semantic_evidence, record_unresolved_conditional_evidence,
    KfxConditionalEvaluation,
};
use folio_kfx::external_audit::{
    audit_external_resource, audit_resources, audit_resources_file_set,
    resource_audit_source_id, ResourceBindingRecord, ResourceResolution,
};
use folio_kfx::fidelity::{audit_fidelity_native, fidelity_native, fidelity_source, validated_language_tag};
use folio_kfx::inspect::{parse_native, parse_native_sources};
use folio_kfx::ion::{IonValue, VERSION_MARKER};
use folio_kfx::native::{
    absorb_symbol_table, NativeContainerOwned, NativeFragment, NativeModel, NativeResource,
};
use folio_kfx::nav::resolved_fragment_fid;
use folio_kfx::placement::{
    finalize_placement_stage, placement_resolution_counts, KfxPlacementOccurrence,
};
use folio_kfx::reading::{
    alias, ordered_content_fragment_indices, ordered_content_trace_locations,
    FIELD_CONTENT_FRAGMENT_SYMBOL, FIELD_READING_ORDERS, FIELD_READING_ORDER_SECTIONS,
};
use folio_kfx::resource_audit::{
    audit_raw_media, count_observed_resource_placements,
    count_observed_resource_placements_standard_ion, count_resource_references,
    whitespace_resource_record_symbol, FIELD_CONTENT_RESOURCE_SYMBOL,
};
use folio_kfx::symbols::{
    SymbolTable, SymbolTableImport, FIELD_SYMBOL_TABLE_IMPORTS, FIELD_SYMBOL_TABLE_IMPORT_MAX_ID,
    FIELD_SYMBOL_TABLE_IMPORT_NAME, FIELD_SYMBOL_TABLE_IMPORT_VERSION, FIELD_SYMBOL_TABLE_MAX_ID,
    FIELD_SYMBOL_TABLE_SYMBOLS,
};
use sha2::Digest;

fn ion_varuint(value: u64) -> Vec<u8> {
    let mut groups = vec![(value & 0x7f) as u8];
    let mut remaining = value >> 7;
    while remaining > 0 {
        groups.push((remaining & 0x7f) as u8);
        remaining >>= 7;
    }
    groups.reverse();
    if let Some(last) = groups.last_mut() {
        *last |= 0x80;
    }
    groups
}

fn ion_positive_int(value: u64) -> Vec<u8> {
    let bytes: Vec<u8> = if value == 0 {
        Vec::new()
    } else {
        value
            .to_be_bytes()
            .into_iter()
            .skip_while(|byte| *byte == 0)
            .collect()
    };
    let mut encoded = vec![0x20 | u8::try_from(bytes.len()).unwrap()];
    encoded.extend(bytes);
    encoded
}

fn ion_struct(fields: &[(u64, u64)]) -> Vec<u8> {
    let mut body = Vec::new();
    for (field_id, value) in fields {
        body.extend(ion_varuint(*field_id));
        body.extend(ion_positive_int(*value));
    }
    let mut encoded = Vec::new();
    if body.len() < 14 {
        encoded.push(0xd0 | u8::try_from(body.len()).unwrap());
    } else {
        encoded.push(0xde);
        encoded.extend(ion_varuint(body.len() as u64));
    }
    encoded.extend(body);
    encoded
}

fn raw_media_cont(container_id: u64, entity_id: u32) -> Vec<u8> {
    let payload = [0xff, 0xd8, 0xff, 0xd9];
    let entity_header_info = [VERSION_MARKER.as_slice(), ion_struct(&[]).as_slice()].concat();
    let mut entity = vec![0u8; ENTY_HEADER_LEN];
    entity[..4].copy_from_slice(b"ENTY");
    entity[4..6].copy_from_slice(&1u16.to_le_bytes());
    entity[6..10].copy_from_slice(&(ENTY_HEADER_LEN as u32).to_le_bytes());
    entity[10..10 + entity_header_info.len()].copy_from_slice(&entity_header_info);
    entity.extend(payload);

    let entity_len = entity.len();
    let mut header_len = 18usize;
    let (info, index_offset) = loop {
        let index_offset = header_len + entity_len;
        let mut info = VERSION_MARKER.to_vec();
        info.extend(ion_struct(&[
            (FIELD_CONTAINER_ID, container_id),
            (FIELD_INDEX_OFFSET, index_offset as u64),
            (FIELD_INDEX_LENGTH, ENTITY_INDEX_ENTRY as u64),
        ]));
        let next_header_len = 18 + info.len();
        if next_header_len == header_len {
            break (info, index_offset);
        }
        header_len = next_header_len;
    };

    let mut bytes = vec![0u8; 18];
    bytes[..4].copy_from_slice(b"CONT");
    bytes[4..6].copy_from_slice(&CONT_VERSION.to_le_bytes());
    bytes[6..10].copy_from_slice(&(header_len as u32).to_le_bytes());
    bytes[10..14].copy_from_slice(&(18u32).to_le_bytes());
    bytes[14..18].copy_from_slice(&(info.len() as u32).to_le_bytes());
    bytes.extend(info);
    bytes.extend(entity);
    bytes.extend(entity_id.to_le_bytes());
    bytes.extend(0x1a1u32.to_le_bytes());
    bytes.extend(0u64.to_le_bytes());
    bytes.extend((entity_len as u64).to_le_bytes());
    assert_eq!(bytes.len(), index_offset + ENTITY_INDEX_ENTRY);
    bytes
}

fn container(names: &[(u64, &str)]) -> NativeContainerOwned {
    let mut symbols = SymbolTable::new();
    for (id, name) in names {
        symbols.names.insert(*id, (*name).to_owned());
    }
    NativeContainerOwned { input_index: 0, byte_offset: 0, entity_count: 1, symbols }
}

fn fragment(container_index: usize, entity_id: u32, fragment_type: u32, value: IonValue) -> NativeFragment {
    NativeFragment { container_index, entity_id, fragment_type, value }
}

fn no_resolution() -> ResourceResolution {
    ResourceResolution {
        normalized_locations: Vec::new(),
        bindings: Vec::new(),
        resolved_records: 0,
        unresolved_records: 0,
        unresolved_visible_placement_positions: 0,
    }
}

#[test]
fn truncated_cont_is_an_error_not_a_panic() {
    for length in 0..24 {
        assert!(parse_native(&vec![b'C'; length], ParseMode::default()).is_err());
    }
}

#[test]
fn concatenated_containers_and_file_sets_are_aggregated_before_resolution() {
    let first = raw_media_cont(1, 101);
    let second = raw_media_cont(2, 202);
    let mut concatenated = first.clone();
    concatenated.extend(second.clone());

    let concatenated_model = parse_native(&concatenated, ParseMode::default()).unwrap();
    assert_eq!(concatenated_model.containers.len(), 2);
    assert_eq!(concatenated_model.resources.len(), 2);
    assert_eq!(concatenated_model.containers[0].byte_offset, 0);
    assert_eq!(concatenated_model.containers[1].byte_offset, first.len());

    let file_set_model =
        parse_native_sources(&[first.as_slice(), second.as_slice()], ParseMode::default()).unwrap();
    assert_eq!(file_set_model.containers.len(), 2);
    assert_eq!(file_set_model.resources.len(), 2);
    assert_eq!(
        file_set_model
            .containers
            .iter()
            .map(|container| (container.input_index, container.byte_offset))
            .collect::<Vec<_>>(),
        vec![(0, 0), (1, 0)]
    );
}

#[test]
fn kfx_symbol_table_preserves_shared_import_descriptors() {
    let value = IonValue::Struct(vec![
        (
            FIELD_SYMBOL_TABLE_IMPORTS,
            IonValue::List(vec![IonValue::Struct(vec![
                (FIELD_SYMBOL_TABLE_IMPORT_NAME, IonValue::String("YJ_symbols".to_owned())),
                (FIELD_SYMBOL_TABLE_IMPORT_VERSION, IonValue::Int(2)),
                (FIELD_SYMBOL_TABLE_IMPORT_MAX_ID, IonValue::Int(100)),
            ])]),
        ),
        (
            FIELD_SYMBOL_TABLE_SYMBOLS,
            IonValue::List(vec![IonValue::String("local-name".to_owned())]),
        ),
        (FIELD_SYMBOL_TABLE_MAX_ID, IonValue::Int(110)),
    ]);
    let mut model = NativeModel::new();

    absorb_symbol_table(&mut model, &value);

    assert_eq!(model.symbols.imports.len(), 1);
    assert_eq!(model.symbols.imports[0].name.as_deref(), Some("YJ_symbols"));
    assert_eq!(model.symbols.imports[0].version, Some(2));
    assert_eq!(model.symbols.imports[0].max_id, Some(100));
    assert_eq!(model.symbols.names.get(&101), Some(&"local-name".to_owned()));
}

#[test]
fn kfx_audit_symbol_resolution_is_scoped_to_container_origin() {
    let mut model = NativeModel::new();
    model.containers = vec![
        container(&[(77, "resource/first.jpg")]),
        container(&[(77, "resource/second.jpg")]),
    ];
    model.containers[1].byte_offset = 100;
    model.fragments = vec![
        fragment(0, 1, 259, IonValue::Struct(vec![(FIELD_CONTENT_RESOURCE_SYMBOL, IonValue::Symbol(77))])),
        fragment(1, 1, 259, IonValue::Struct(vec![(FIELD_CONTENT_RESOURCE_SYMBOL, IonValue::Symbol(77))])),
    ];

    let references = count_resource_references(&model);

    assert_eq!(references.get("resource/first.jpg"), 1);
    assert_eq!(references.get("resource/second.jpg"), 1);
    assert_eq!(references.to_vec().len(), 2);
}

#[test]
fn kfx_audit_resolves_fragment_fid_in_its_container_symbol_context() {
    let mut model = NativeModel::new();
    model.containers = vec![container(&[(42, "inner-reference"), (900, "resolved-fid")])];
    let fragment = fragment(0, 900, 164, IonValue::Struct(vec![(4, IonValue::Symbol(42))]));

    assert_eq!(
        resolved_fragment_fid(&model.containers, &fragment).as_deref(),
        Some("resolved-fid")
    );
}

#[test]
fn kfx_image_placeholder_symbol_tracks_the_declared_shared_table_range() {
    let imports = vec![
        SymbolTableImport { name: Some("Other".to_owned()), version: Some(1), max_id: Some(50) },
        SymbolTableImport { name: Some("YJ_symbols".to_owned()), version: Some(10), max_id: Some(851) },
    ];

    assert_eq!(whitespace_resource_record_symbol(&imports, false), Some(321));
}

#[test]
fn reading_order_sections_define_story_and_document_sequence() {
    let container = container(&[
        (1, "section-b"),
        (2, "section-a"),
        (10, "section-b"),
        (11, "section-a"),
        (20, "story-b"),
        (21, "story-a"),
    ]);
    let reading_order = fragment(
        0,
        0,
        538,
        IonValue::Struct(vec![(
            FIELD_READING_ORDERS,
            IonValue::List(vec![IonValue::Struct(vec![(
                FIELD_READING_ORDER_SECTIONS,
                IonValue::List(vec![IonValue::Symbol(1), IonValue::Symbol(2)]),
            )])]),
        )]),
    );
    let section_a = fragment(0, 11, 260, IonValue::Struct(vec![(FIELD_CONTENT_FRAGMENT_SYMBOL, IonValue::Symbol(21))]));
    let story_a = fragment(0, 21, 259, IonValue::Null);
    let section_b = fragment(0, 10, 260, IonValue::Struct(vec![(FIELD_CONTENT_FRAGMENT_SYMBOL, IonValue::Symbol(20))]));
    let story_b = fragment(0, 20, 259, IonValue::Null);
    let mut model = NativeModel::new();
    model.containers = vec![container];
    model.fragments = vec![reading_order, section_a, story_a, section_b, story_b];

    assert_eq!(ordered_content_fragment_indices(&model), Some(vec![4, 2]));
    let trace_locations = ordered_content_trace_locations(&model);
    assert_eq!(
        trace_locations.get(&4).and_then(|location| location.section_id.as_deref()),
        Some("S001")
    );
    assert_eq!(
        trace_locations.get(&4).and_then(|location| location.story_id.as_deref()),
        Some("ST001")
    );
    assert_eq!(
        trace_locations.get(&2).and_then(|location| location.section_id.as_deref()),
        Some("S002")
    );
}

#[test]
fn semantic_evidence_audit_is_content_free_for_cont_input() {
    let bytes = raw_media_cont(1, 7);
    let report = audit_semantic_evidence(&bytes);

    assert_eq!(report.status, "CompleteWithWarnings");
    assert_eq!(report.native.fragment_count, 0);
    assert!(report.native.fragment_type_counts.is_empty());
    assert!(report.candidate_samples.is_empty());
    assert_eq!(report.conditional.status, "NotObservedInNativeTree");
    assert!(report.conditional.evaluation.is_none());
    assert_eq!(report.render_inline.status, "NotObservedInNativeTree");
    assert!(!report.input_sha256_audit_only.is_empty());
    assert!(!format!("{:?}", report).contains("private-title-not-a-kfx"));
}

#[test]
fn semantic_evidence_audit_rejects_non_cont_without_body_text() {
    let report = audit_semantic_evidence(b"private-title-not-a-kfx");

    assert_eq!(report.status, "Failed");
    assert_eq!(report.error_code.as_deref(), Some("KFX_INPUT_NOT_CONT"));
    assert!(!format!("{:?}", report).contains("private-title-not-a-kfx"));
    assert!(report.candidate_samples.is_empty());
}

#[test]
fn conditional_candidates_are_explicitly_unknown_without_changing_content() {
    let mut model = NativeModel::new();
    model.fragments = vec![fragment(0, 1, 259, IonValue::Struct(vec![(171, IonValue::Bool(true))]))];

    let evidence = audit_conditional_evidence(&model.fragments);
    assert_eq!(evidence.evaluation, Some(KfxConditionalEvaluation::Unknown));
    assert_eq!(evidence.status, "CandidateObservedRequiresSourceRelation");
    record_unresolved_conditional_evidence(&mut model);
    assert!(model.unknown_features.contains("kfx-conditional-unknown"));
    assert_eq!(model.input_loss.len(), 1);
}

#[test]
fn conditional_evidence_without_candidates_records_nothing() {
    let mut model = NativeModel::new();
    model.fragments = vec![fragment(0, 1, 259, IonValue::Struct(vec![(172, IonValue::Bool(true))]))];

    let evidence = audit_conditional_evidence(&model.fragments);
    assert_eq!(evidence.evaluation, None);
    record_unresolved_conditional_evidence(&mut model);
    assert!(!model.unknown_features.contains("kfx-conditional-unknown"));
    assert!(model.input_loss.is_empty());
}

fn occurrence(resource: Option<&str>, status: &str) -> KfxPlacementOccurrence {
    KfxPlacementOccurrence {
        source_order: 99,
        resource: resource.map(str::to_owned),
        alternate_symbol_resources_audit_only: Vec::new(),
        source_position_target_id: Some(7),
        identity_status: status.to_owned(),
    }
}

#[test]
fn placement_stage_numbers_occurrences_and_counts_aliases_in_order() {
    let stage = finalize_placement_stage(vec![
        occurrence(Some("img_0002"), "exact_image_identity"),
        occurrence(None, "unresolved_external_resource_reference"),
        occurrence(Some("img_0001"), "exact_image_identity"),
        occurrence(Some("img_0002"), "ambiguous"),
    ]);

    assert_eq!(stage.occurrence_count, 4);
    assert_eq!(stage.identity_verified_occurrence_count, 2);
    assert_eq!(stage.unresolved_identity_occurrence_count, 2);
    assert_eq!(
        stage.occurrences.iter().map(|o| o.source_order).collect::<Vec<_>>(),
        vec![0, 1, 2, 3]
    );
    assert_eq!(stage.occurrences[3].identity_status, "ambiguous");
    assert_eq!(
        stage
            .resource_frequencies
            .iter()
            .map(|f| (f.resource.as_str(), f.count))
            .collect::<Vec<_>>(),
        vec![("img_0001", 1), ("img_0002", 2)]
    );
}

#[test]
fn empty_placement_stage_has_no_frequencies() {
    let stage = finalize_placement_stage(Vec::new());
    assert_eq!(stage.occurrence_count, 0);
    assert_eq!(stage.unresolved_identity_occurrence_count, 0);
    assert!(stage.resource_frequencies.is_empty());
}

#[test]
fn resolution_counts_are_sorted_by_category() {
    let counts = placement_resolution_counts(&vec![
        "missing".to_owned(),
        "exact".to_owned(),
        "missing".to_owned(),
    ]);
    assert_eq!(
        counts.iter().map(|c| (c.category.as_str(), c.count)).collect::<Vec<_>>(),
        vec![("exact", 1), ("missing", 2)]
    );
}

#[test]
fn language_tags_are_trimmed_checked_and_lowered() {
    assert_eq!(validated_language_tag(" EN-us ").as_deref(), Some("en-us"));
    assert_eq!(validated_language_tag("zh"), Some("zh".to_owned()));
    assert_eq!(validated_language_tag(""), None);
    assert_eq!(validated_language_tag("   "), None);
    assert_eq!(validated_language_tag("123"), None);
    assert_eq!(validated_language_tag("en_US"), None);
    assert_eq!(validated_language_tag("中文"), None);
    assert_eq!(validated_language_tag(&"a".repeat(35)).as_deref(), Some("a".repeat(35).as_str()));
    assert_eq!(validated_language_tag(&"a".repeat(36)), None);
}

#[test]
fn fidelity_native_counts_the_model() {
    let mut model = NativeModel::new();
    model.containers = vec![container(&[(1, "a"), (2, "b")]), container(&[])];
    model.containers[1].entity_count = 4;
    model.fragments = vec![
        fragment(0, 1, 259, IonValue::Null),
        fragment(0, 2, 0, IonValue::Null),
        fragment(1, 3, 259, IonValue::Null),
    ];
    model.symbols.names.insert(5, "x".to_owned());

    let native = fidelity_native(&model);
    assert_eq!(native.container_count, 2);
    assert_eq!(native.entity_count, 5);
    assert_eq!(native.fragment_count, 3);
    assert_eq!(native.unknown_fragment_count, 1);
    assert_eq!(native.fragment_type_counts.get("259"), 2);
    assert_eq!(native.fragment_type_counts.get("0"), 1);
    assert_eq!(native.symbol_count, 1);
    assert_eq!(native.string_table_count, 0);
    assert_eq!(native.raw_resource_count, 0);
}

#[test]
fn fidelity_source_reads_container_versions_and_language() {
    let bytes = raw_media_cont(1, 7);
    let mut model = parse_native(&bytes, ParseMode::default()).unwrap();
    model.metadata.language = Some(" DE ".to_owned());

    let source = fidelity_source(&bytes, &model);
    assert_eq!(source.format, "Amazon KFX CONT");
    assert_eq!(source.layout, "unknown_not_decoded");
    assert_eq!(source.language.as_deref(), Some("de"));
    assert_eq!(source.container_version_counts.get("2"), 1);
}

#[test]
fn whitespace_record_symbol_standard_numbering_subtracts_system_symbols() {
    let imports = vec![
        SymbolTableImport { name: Some("Other".to_owned()), version: Some(1), max_id: Some(50) },
        SymbolTableImport { name: Some("YJ_symbols".to_owned()), version: Some(10), max_id: Some(851) },
    ];
    assert_eq!(whitespace_resource_record_symbol(&imports, true), Some(312));
    let yj = || SymbolTableImport { name: Some("YJ_symbols".to_owned()), version: Some(10), max_id: Some(851) };
    let twice = vec![yj(), yj()];
    assert_eq!(whitespace_resource_record_symbol(&twice, false), None);
    assert_eq!(whitespace_resource_record_symbol(&Vec::new(), false), None);
    let without_max = vec![SymbolTableImport { name: Some("YJ_symbols".to_owned()), version: Some(10), max_id: None }];
    assert_eq!(whitespace_resource_record_symbol(&without_max, false), None);
}

fn placeholder(image_symbol: u64, resource_symbol: u64) -> IonValue {
    IonValue::Struct(vec![
        (159, IonValue::Symbol(image_symbol)),
        (FIELD_CONTENT_RESOURCE_SYMBOL, IonValue::Symbol(resource_symbol)),
        (155, IonValue::Int(1234)),
        (584, IonValue::String("  ".to_owned())),
    ])
}

#[test]
fn placements_count_only_whitespace_placeholders() {
    let mut c = container(&[(30, "resource/pic.jpg"), (39, "resource/shifted.jpg")]);
    c.symbols.imports = vec![SymbolTableImport {
        name: Some("YJ_symbols".to_owned()),
        version: Some(10),
        max_id: Some(851),
    }];
    let mut model = NativeModel::new();
    model.containers = vec![c];
    let image_symbol = 10 + 261;
    model.fragments = vec![fragment(
        0,
        1,
        259,
        IonValue::List(vec![
            placeholder(image_symbol, 39),
            placeholder(image_symbol, 39),
            placeholder(image_symbol + 1, 39),
        ]),
    )];

    let placements = count_observed_resource_placements(&model);
    // Content ids are shifted by nine per import: 39 names the table's 30.
    assert_eq!(placements.get("resource/pic.jpg"), 2);
    assert_eq!(placements.get("resource/shifted.jpg"), 0);
    let standard = count_observed_resource_placements_standard_ion(&model);
    assert_eq!(standard.get("resource/pic.jpg"), 0);
}

#[test]
fn aliases_are_zero_padded_to_three_digits() {
    assert_eq!(alias("S", 7), "S007");
    assert_eq!(alias("ST", 42), "ST042");
    assert_eq!(alias("S", 1234), "S1234");
}

fn framed_digest(inputs: &[&[u8]]) -> String {
    let mut hasher = sha2::Sha256::new();
    for input in inputs {
        hasher.update((input.len() as u64).to_le_bytes());
        hasher.update(input);
    }
    let digest = hasher.finalize();
    let hex: String = digest.iter().map(|b| format!("{:02x}", b)).collect();
    format!("KFX-RI-{}", &hex[..16])
}

#[test]
fn source_id_hashes_each_input_with_its_length() {
    let a: &[u8] = b"first";
    let b: &[u8] = b"second";
    assert_eq!(resource_audit_source_id(&[a, b]), framed_digest(&[a, b]));
    assert_eq!(resource_audit_source_id(&[a, b]).len(), 23);
    assert_ne!(resource_audit_source_id(&[a, b]), resource_audit_source_id(&[b, a]));
}

#[test]
fn resource_audit_of_a_raw_media_container() {
    let bytes = raw_media_cont(1, 7);
    let audit = audit_resources(&bytes, &no_resolution()).unwrap();

    assert_eq!(audit.schema_version, 1);
    assert_eq!(audit.parser_version, "folioforge-kfx-cont/0.4-resource-audit");
    assert_eq!(audit.source_id, framed_digest(&[bytes.as_slice()]));
    assert_eq!(audit.containers.len(), 1);
    assert_eq!(audit.containers[0].entity_count, 1);
    assert_eq!(audit.raw_media.len(), 1);
    assert_eq!(audit.raw_media[0].byte_length, 4);
    assert_eq!(audit.raw_media[0].media_type, "image/jpeg");
    let digest = sha2::Sha256::digest([0xff, 0xd8, 0xff, 0xd9]);
    let hex: String = digest.iter().map(|b| format!("{:02x}", b)).collect();
    assert_eq!(audit.raw_media[0].sha256_audit_only, hex);
    assert!(audit.external_resources.is_empty());
    assert_eq!(audit.summary.raw_media_count, 1);
    assert_eq!(audit.summary.external_resource_count, 0);
    assert_eq!(
        audit.summary.exact_identity_resolved + audit.summary.unresolved,
        audit.summary.external_resource_count
    );
}

#[test]
fn resource_audit_rejects_non_cont_input() {
    match audit_resources(b"not a kfx", &no_resolution()) {
        Err(AmazonKfxError::InvalidHeader(_)) | Err(AmazonKfxError::Truncated(_)) => {}
        other => panic!("unexpected result {:?}", other.map(|a| a.source_id)),
    }
    assert!(audit_resources_file_set(&[], &no_resolution()).is_err());
}

fn external_model(location: &str, raw_names: &[(u32, &str)]) -> NativeModel {
    let mut names = vec![(900u64, "e1")];
    for (id, name) in raw_names {
        names.push((u64::from(*id), *name));
    }
    let mut model = NativeModel::new();
    model.containers = vec![container(&names)];
    model.fragments = vec![fragment(
        0,
        900,
        164,
        IonValue::Struct(vec![
            (161, IonValue::String("jpg".to_owned())),
            (165, IonValue::String(location.to_owned())),
            (422, IonValue::Int(2)),
            (423, IonValue::Int(3)),
        ]),
    )];
    for (id, _) in raw_names {
        model.resources.push(NativeResource {
            container_index: 0,
            fragment_type: 417,
            entity_id: Some(*id),
            media_type: "image/jpeg".to_owned(),
            bytes: vec![0xff, 0xd8, 0xff, 0xd9],
            entity_info: None,
        });
    }
    model
}

#[test]
fn external_resource_identity_statuses() {
    let model = external_model("resource/a", &[(70, "resource/a")]);
    let raw = audit_raw_media(&model.containers, &model.resources);
    let refs = count_resource_references(&model);
    let record = audit_external_resource(
        &model,
        &model.fragments[0],
        &raw,
        &refs,
        &refs,
        &refs,
        &refs,
        Some("resource/a".to_owned()),
        true,
        None,
    );
    assert_eq!(record.location.as_deref(), Some("resource/a"));
    assert_eq!(record.location_source, "ion_string");
    assert_eq!(record.identity_status, "ResolvedByExactIdentity");
    assert_eq!(record.identity_reason, "ExactLocationToRawFid");
    assert_eq!(record.identity_classification, "ResolvedByExactIdentity");
    assert_eq!(record.production_binding_status, "Exact");
    assert_eq!(record.declared_dimensions, Some((2, 3)));
    assert_eq!(record.resource_shape_classification, "DirectMedia");
    assert_eq!(record.candidate_raw_media.len(), 1);
    assert_eq!(record.fragment_key.fid.as_deref(), Some("e1"));
    assert_eq!(record.metadata_field_ids, vec![161, 165, 422, 423]);
    assert_eq!(record.dimension_candidate_count_audit_only, 0);

    let duplicate = external_model("resource/a", &[(70, "resource/a"), (71, "resource/a")]);
    let raw = audit_raw_media(&duplicate.containers, &duplicate.resources);
    let record = audit_external_resource(
        &duplicate, &duplicate.fragments[0], &raw, &refs, &refs, &refs, &refs,
        Some("resource/a".to_owned()), false, Some("Duplicate".to_owned()),
    );
    assert_eq!(record.identity_status, "unresolved");
    assert_eq!(record.identity_reason, "DuplicateRawMedia");
    assert_eq!(record.production_binding_status, "Unresolved");
    assert_eq!(record.production_diagnostic_code.as_deref(), Some("Duplicate"));

    let missing = external_model("resource/b", &[(70, "resource/a")]);
    let raw = audit_raw_media(&missing.containers, &missing.resources);
    let record = audit_external_resource(
        &missing, &missing.fragments[0], &raw, &refs, &refs, &refs, &refs,
        Some("resource/b".to_owned()), false, None,
    );
    assert_eq!(record.identity_status, "RawMediaExistsButLookupFailed");
    assert_eq!(record.identity_reason, "MissingExactLocationToRawFid");
    assert_eq!(record.identity_classification, "StillUnknown");

    let invalid = audit_external_resource(
        &missing, &missing.fragments[0], &raw, &refs, &refs, &refs, &refs, None, false, None,
    );
    assert_eq!(invalid.identity_reason, "InvalidReference");
}

#[test]
fn resource_audit_binds_production_answers_by_origin_and_entity() {
    let resolution = ResourceResolution {
        normalized_locations: vec![Some("resource/a".to_owned())],
        bindings: vec![
            ResourceBindingRecord { container_origin: 0, external_resource_entity_id: 1, exact: false, diagnostic_code: Some("Other".to_owned()) },
        ],
        resolved_records: 1,
        unresolved_records: 0,
        unresolved_visible_placement_positions: 0,
    };
    let bytes = raw_media_cont(1, 7);
    let audit = audit_resources(&bytes, &resolution).unwrap();
    assert_eq!(audit.summary.production_exact_bindings, 1);
    assert_eq!(audit.summary.production_unresolved_bindings, 0);
}

use folio_kfx::placement::{
    epub_resource_map, lookup, placement_aliases, placement_identity_summary,
    placement_stage_from_capture, placement_stage_from_raw, CapturedImagePlacement,
    RawImageReference, audit_placements, PlacementInputs,
};

fn pairs(items: &[(&str, &str)]) -> Vec<(String, String)> {
    items.iter().map(|(a, b)| ((*a).to_owned(), (*b).to_owned())).collect()
}

fn raw_reference(name: Option<&str>, alternates: &[&str], category: &str) -> RawImageReference {
    RawImageReference {
        resource_name: name.map(str::to_owned),
        alternate_names_audit_only: alternates.iter().map(|a| (*a).to_owned()).collect(),
        position_target_id: Some(3),
        resolution_category: category.to_owned(),
    }
}

#[test]
fn aliases_number_exact_identities_in_order() {
    let identities = pairs(&[("e1", "exact_image_identity"), ("e2", "ambiguous"), ("e3", "exact_image_identity")]);
    let aliases = placement_aliases(&identities);
    assert_eq!(aliases, pairs(&[("e1", "img_0001"), ("e3", "img_0002")]));
    assert_eq!(lookup(&aliases, "e3").as_deref(), Some("img_0002"));
    assert_eq!(lookup(&aliases, "e2"), None);
}

#[test]
fn raw_placement_stage_names_aliases_and_statuses() {
    let identities = pairs(&[("e1", "exact_image_identity"), ("e2", "ambiguous")]);
    let aliases = placement_aliases(&identities);
    let raw = vec![
        raw_reference(Some("e1"), &["e2", "e1"], "exact"),
        raw_reference(Some("e9"), &[], "missing"),
        raw_reference(None, &[], "missing"),
    ];
    let stage = placement_stage_from_raw(&raw, &aliases, &identities);
    assert_eq!(stage.occurrence_count, 3);
    assert_eq!(stage.identity_verified_occurrence_count, 1);
    assert_eq!(stage.occurrences[0].resource.as_deref(), Some("img_0001"));
    assert_eq!(stage.occurrences[0].alternate_symbol_resources_audit_only, vec!["img_0001".to_owned()]);
    assert_eq!(stage.occurrences[1].identity_status, "unresolved_external_resource_reference");
    assert_eq!(stage.occurrences[2].source_order, 2);

    let summary = placement_identity_summary(4, &raw, &identities);
    assert_eq!(summary.external_resource_records, 4);
    assert_eq!(summary.raw_image_reference_names, 3);
    assert_eq!(summary.exact_image_identities, 1);
    assert_eq!(summary.unresolved_or_ambiguous_identities, 2);
    assert_eq!(summary.resource_alias_catalog, vec!["img_0001".to_owned()]);
    assert_eq!(
        summary
            .raw_reference_resolution_counts
            .iter()
            .map(|c| (c.category.as_str(), c.count))
            .collect::<Vec<_>>(),
        vec![("exact", 1), ("missing", 2)]
    );
}

#[test]
fn captured_placement_stage_names_resources_through_their_ids() {
    let identities = pairs(&[("e1", "exact_image_identity")]);
    let aliases = placement_aliases(&identities);
    let names = vec![(5u32, "e1".to_owned())];
    let captured = vec![
        CapturedImagePlacement { resource: 5, position_target_id: None },
        CapturedImagePlacement { resource: 6, position_target_id: Some(1) },
    ];
    let stage = placement_stage_from_capture(&captured, &aliases, &identities, &names);
    assert_eq!(stage.occurrences[0].resource.as_deref(), Some("img_0001"));
    assert_eq!(stage.occurrences[0].identity_status, "exact_image_identity");
    assert_eq!(stage.occurrences[1].identity_status, "unresolved_ir_resource_identity");
    assert_eq!(stage.resource_frequencies.len(), 1);

    let manifest = epub_resource_map(&names, &aliases);
    assert_eq!(manifest.len(), 1);
    assert_eq!(manifest[0].resource, "img_0001");
    assert_eq!(manifest[0].manifest_id, "res5");
}

#[test]
fn fidelity_audit_rejects_non_cont_without_exposing_input_bytes() {
    let (report, model) = audit_fidelity_native(b"private-title-not-a-kfx");

    assert_eq!(report.status, "Failed");
    assert_eq!(report.error_code.as_deref(), Some("KFX_INPUT_NOT_CONT"));
    assert!(!format!("{:?}", report).contains("private-title-not-a-kfx"));
    assert_eq!(report.source.layout, "unknown_not_decoded");
    assert_eq!(report.diagnostics.get("input_not_cont"), 1);
    assert!(model.is_none());
}

#[test]
fn fidelity_native_stage_counts_cont_input() {
    let bytes = raw_media_cont(1, 7);
    let (report, model) = audit_fidelity_native(&bytes);

    assert!(model.is_some());
    assert_eq!(report.error_code, None);
    assert_eq!(report.source.container_version_counts.get("2"), 1);
    assert_eq!(report.native.container_count, 1);
    assert_eq!(report.native.entity_count, 1);
    assert_eq!(report.native.raw_resource_count, 1);
    assert_eq!(report.input_bytes, bytes.len() as u64);
    assert_eq!(report.input_sha256_audit_only.len(), 64);
}

fn placement_inputs() -> PlacementInputs {
    PlacementInputs {
        identities: pairs(&[("a", "exact_image_identity"), ("b", "exact_image_identity"), ("c", "ambiguous_external_resource_name")]),
        names_by_resource: vec![(4, "a".to_owned()), (9, "c".to_owned())],
        locations: Vec::new(),
        names_by_location: Vec::new(),
        native: Vec::new(),
        semantic: Vec::new(),
        ir: Vec::new(),
    }
}

#[test]
fn placement_audit_requires_cont_input() {
    let error = audit_placements(b"private-title-not-a-kfx", placement_inputs()).unwrap_err();
    assert_eq!(
        error,
        AmazonKfxError::InvalidHeader("placement audit requires an Amazon CONT KFX input".to_owned())
    );
}

#[test]
fn placement_audit_counts_records_and_aliases_exact_identities() {
    let bytes = raw_media_cont(1, 7);
    let audit = audit_placements(&bytes, placement_inputs()).unwrap();
    assert_eq!(audit.schema_version, 1);
    assert_eq!(audit.resource_identity.external_resource_records, 0);
    assert_eq!(audit.resource_identity.resource_alias_catalog, vec!["img_0001".to_owned(), "img_0002".to_owned()]);
    assert_eq!(audit.epub_resource_map.len(), 1);
    assert_eq!(audit.epub_resource_map[0].manifest_id, "res4");
    assert_eq!(audit.input_sha256_audit_only.len(), 64);
}

#[test]
fn source_string_audit_of_a_book_without_strings_is_empty_but_complete() {
    let bytes = raw_media_cont(1, 7);
    let inventory = folio_kfx::source_strings::audit_source_strings(&bytes, false).unwrap();
    assert_eq!(inventory.schema_version, 1);
    assert_eq!(inventory.inventory_mode, "complete");
    assert_eq!(inventory.query_count, None);
    assert_eq!(inventory.fragment_count, 0);
    assert_eq!(inventory.string_count, 0);
    assert!(inventory.coverage.starts_with("decoded Ion strings"));

    let queries = vec![("H1".to_owned(), "x".to_owned(), false), ("H2".to_owned(), "y".to_owned(), true)];
    let matches = folio_kfx::source_strings::audit_source_string_matches(&bytes, &queries).unwrap();
    assert_eq!(matches.inventory_mode, "query_matches_only");
    assert_eq!(matches.query_count, Some(2));
    assert_eq!(matches.unmatched_query_ids, vec!["H1".to_owned(), "H2".to_owned()]);
    assert!(matches.matched_query_ids.is_empty());
}

#[test]
fn fidelity_diagnostics_count_allowlisted_semantic_findings() {
    let mut model = NativeModel::new();
    model.unknown_features.insert_str("kfx-text-reference-unresolved");
    model.unknown_features.insert_str("kfx-navigation-target-unresolved");
    let (mut report, _) = folio_kfx::fidelity::audit_fidelity_native(&raw_media_cont(1, 7));

    folio_kfx::fidelity::refresh_fidelity_diagnostics(&model, &mut report);

    assert_eq!(report.diagnostics.get("unresolved_text_reference_feature_count"), 1);
    assert_eq!(report.diagnostics.get("unresolved_navigation_target_feature_count"), 1);
    assert_eq!(report.diagnostics.get("input_loss_count"), 0);
    assert_eq!(report.diagnostics.get("unknown_feature_count"), 2);
}

#[test]
fn single_input_resource_audit_is_the_one_input_file_set_audit() {
    let bytes = raw_media_cont(1, 7);
    let single = audit_resources(&bytes, &no_resolution()).unwrap();
    let set = folio_kfx::external_audit::audit_resources_file_set(&[bytes.as_slice()], &no_resolution()).unwrap();
    assert_eq!(format!("{single:?}"), format!("{set:?}"));
    let bad = b"not-a-kfx".to_vec();
    assert_eq!(
        audit_resources(&bad, &no_resolution()).unwrap_err(),
        folio_kfx::external_audit::audit_resources_file_set(&[bad.as_slice()], &no_resolution()).unwrap_err()
    );
}

fn no_content_resources() -> folio_kfx::content_walk::ContentResources {
    folio_kfx::content_walk::ContentResources { resource_symbols: Vec::new(), image_resource_symbols: Vec::new() }
}

#[test]
fn text_fragment_source_audit_requires_cont_input() {
    let error = folio_kfx::text_source::audit_text_fragment_source(b"not-a-kfx", "F001", "$146[0]", false, false, &no_content_resources())
        .unwrap_err();
    assert_eq!(
        error,
        AmazonKfxError::InvalidHeader("KFX source dump requires an Amazon CONT KFX input".to_owned())
    );
}

#[test]
fn text_fragment_source_audit_rejects_named_or_zero_aliases() {
    let bytes = raw_media_cont(1, 7);
    for alias in ["X1", "F0", "F", "Fabc", ""] {
        let error = folio_kfx::text_source::audit_text_fragment_source(&bytes, alias, "$146[0]", false, false, &no_content_resources())
            .unwrap_err();
        assert_eq!(
            error,
            AmazonKfxError::Semantic("fragment must be an anonymous text-event alias such as F006".to_owned())
        );
    }
}

#[test]
fn text_fragment_source_audit_rejects_malformed_paths() {
    let bytes = raw_media_cont(1, 7);
    let error = folio_kfx::text_source::audit_text_fragment_source(&bytes, "F001", "$146[nope]", false, false, &no_content_resources())
        .unwrap_err();
    assert!(matches!(error, AmazonKfxError::Semantic(_)));
}

#[test]
fn text_fragment_source_audit_reports_missing_content_fragments() {
    let bytes = raw_media_cont(1, 7);
    let error = folio_kfx::text_source::audit_text_fragment_source(&bytes, "F001", "$146[0]", false, false, &no_content_resources())
        .unwrap_err();
    assert_eq!(error, AmazonKfxError::Semantic("content fragment alias F001 was not found".to_owned()));
    let error = folio_kfx::text_source::audit_text_fragment_source(&bytes, "F+2", "$146[0]", false, false, &no_content_resources())
        .unwrap_err();
    assert_eq!(error, AmazonKfxError::Semantic("content fragment alias F+2 was not found".to_owned()));
}

fn yj_container(names: &[(u64, &str)]) -> NativeContainerOwned {
    let mut c = container(names);
    c.symbols.imports.push(SymbolTableImport {
        name: Some("YJ_symbols".to_owned()),
        version: Some(10),
        max_id: Some(800),
    });
    c
}

fn placement_records() -> IonValue {
    let by_symbol = IonValue::Struct(vec![
        (159, IonValue::Symbol(271)),
        (175, IonValue::Symbol(300)),
        (155, IonValue::Int(42)),
    ]);
    let by_location = IonValue::Struct(vec![(159, IonValue::Symbol(271)), (175, IonValue::String("resource/x".to_owned()))]);
    let missing = IonValue::Struct(vec![(159, IonValue::Symbol(271))]);
    let other = IonValue::Struct(vec![(159, IonValue::Symbol(270)), (175, IonValue::Symbol(300))]);
    IonValue::Struct(vec![
        (155, IonValue::Int(7)),
        (146, IonValue::List(vec![by_symbol, by_location, missing, other])),
    ])
}

#[test]
fn raw_image_references_follow_records_in_document_order() {
    let mut model = NativeModel::new();
    model.containers.push(yj_container(&[(300, "rsrc1"), (291, "rsrc0")]));
    model.fragments.push(fragment(0, 1, 259, placement_records()));
    model.fragments.push(fragment(0, 2, 260, placement_records()));
    let identities = pairs(&[("rsrc1", "exact_image_identity")]);
    let locations = pairs(&[("rsrc0", "resource/rsrc0"), ("resource/x", "resource/x")]);
    let names_by_location = pairs(&[("resource/rsrc0", "rsrc1"), ("resource/x", "rsrc9")]);

    let refs = folio_kfx::raw_images::collect_raw_image_references(&model, &identities, &locations, &names_by_location);

    assert_eq!(refs.len(), 3);
    assert_eq!(refs[0].resource_name.as_deref(), Some("rsrc1"));
    assert_eq!(refs[0].alternate_names_audit_only, vec!["rsrc1".to_owned()]);
    assert_eq!(refs[0].position_target_id, Some(42));
    assert_eq!(refs[0].resolution_category, "symbol_ion_sid_exact_fid");
    assert_eq!(refs[1].resource_name.as_deref(), Some("rsrc9"));
    assert!(refs[1].alternate_names_audit_only.is_empty());
    assert_eq!(refs[1].position_target_id, Some(7));
    assert_eq!(refs[1].resolution_category, "string_exact_location_bridge");
    assert_eq!(refs[2].resource_name, None);
    assert_eq!(refs[2].resolution_category, "field_175_missing");
}

#[test]
fn raw_image_references_need_the_placement_symbol_import() {
    let mut model = NativeModel::new();
    model.containers.push(container(&[(300, "rsrc1")]));
    let record = IonValue::Struct(vec![(159, IonValue::Symbol(271)), (175, IonValue::Symbol(300))]);
    model.fragments.push(fragment(0, 1, 259, record));
    let refs = folio_kfx::raw_images::collect_raw_image_references(&model, &Vec::new(), &Vec::new(), &Vec::new());
    assert!(refs.is_empty());
}

#[test]
fn raw_image_symbols_outside_the_container_scope_are_reported() {
    let mut model = NativeModel::new();
    model.containers.push(yj_container(&[]));
    let record = IonValue::Struct(vec![(159, IonValue::Symbol(271)), (175, IonValue::Symbol(999)), (175, IonValue::Int(1))]);
    let unsupported = IonValue::Struct(vec![(159, IonValue::Symbol(271)), (175, IonValue::Int(1))]);
    model.fragments.push(fragment(0, 1, 259, IonValue::List(vec![record, unsupported])));
    let refs = folio_kfx::raw_images::collect_raw_image_references(&model, &Vec::new(), &Vec::new(), &Vec::new());
    assert_eq!(refs.len(), 2);
    assert_eq!(refs[0].resolution_category, "symbol_ion_sid_not_in_container_scope");
    assert_eq!(refs[1].resolution_category, "field_175_unsupported_value_type");
}

#[test]
fn text_event_audit_of_a_book_without_content_is_complete_and_empty() {
    let resources = folio_kfx::content_walk::ContentResources {
        resource_symbols: Vec::new(),
        image_resource_symbols: Vec::new(),
    };
    let roles = folio_kfx::text_audit::BookRoles { footnotes: false, mathml: false, figure: false, image: false, text: false };
    let bytes = raw_media_cont(1, 7);
    let audit = folio_kfx::text_audit::audit_text_events(&bytes, true, &resources, roles).unwrap();
    assert_eq!(audit.schema_version, 1);
    assert_eq!(audit.status, "Complete");
    assert!(audit.events.is_empty());
    assert_eq!(audit.stream.event_count, 0);
    assert_eq!(audit.input_sha256_audit_only, format!("{:x}", sha2::Sha256::digest(&bytes)));
}

#[test]
fn inspect_records_unresolved_resource_associations() {
    let bytes = raw_media_cont(1, 7);
    let report = folio_kfx::inspect::inspect(
        &bytes,
        ParseMode::Compatible,
        folio_kfx::inspect::ResolutionReport { diagnostics: Vec::new(), unresolved_records: 2 },
    )
    .unwrap();
    assert!(report.unknown_features.contains(&"kfx-resource-byte-association-incomplete".to_owned()));
    assert_eq!(
        report.input_loss.last().map(String::as_str),
        Some("2 KFX resource metadata records have no unique exact `$165` location to `$417` fid association.")
    );
    assert!(report.resource_identity_diagnostics.is_empty());
    let clean = folio_kfx::inspect::inspect(
        &bytes,
        ParseMode::Compatible,
        folio_kfx::inspect::ResolutionReport { diagnostics: Vec::new(), unresolved_records: 0 },
    )
    .unwrap();
    assert!(!clean.unknown_features.contains(&"kfx-resource-byte-association-incomplete".to_owned()));
    assert_eq!(clean.container_count, 1);
}
