use std::collections::BTreeMap;

use folio_kfx::audit_path::{format_ion_audit_path, parse_ion_audit_path};
use folio_kfx::content::{
    contains_illustrated_image_structure, referenced_strings, FIELD_CONTENT_NODE_TYPE,
    FIELD_CONTENT_ORACLE_RESOURCE_SYMBOL, FIELD_FRAGMENT_ID, FIELD_FRAGMENT_STRING_INDEX,
    FIELD_FRAGMENT_TEXT, KFX_IMAGE_CAPTION_NODE_TYPE, KFX_IMAGE_CONTAINER_NODE_TYPE,
    KFX_IMAGE_RECORD_NODE_TYPE,
};
use folio_kfx::error::ParseMode;
use folio_kfx::fragment::FragmentKey;
use folio_kfx::heading::{kfx_heading_level, kfx_navigation_label_matches};
use folio_kfx::ion::IonValue;
use folio_kfx::links::{
    advance_kfx_nested_text_offset, localize_kfx_link_ranges, KfxTextLinkRange,
    FIELD_TEXT_STYLE_EVENTS,
};
use folio_kfx::media::{classify_resource_shape, media_type_for_bytes};
use folio_kfx::symbols::{local_symbol_start, FIELD_SYMBOL_TABLE_IMPORTS, FIELD_SYMBOL_TABLE_IMPORT_MAX_ID};

const FIELD_TEXT_VALUES: u64 = 146;

#[test]
fn text_source_audit_path_round_trips_numeric_ion_paths() {
    let path = parse_ion_audit_path("$146[86].$145").expect("valid numeric path");
    assert_eq!(format_ion_audit_path(&path), "$146[86].$145");
    assert!(parse_ion_audit_path("$146[nope].$145").is_err());
}

#[test]
fn parse_mode_defaults_to_compatible() {
    assert_eq!(ParseMode::default(), ParseMode::Compatible);
}

#[test]
fn local_symbol_start_sums_system_and_all_imported_symbol_ranges() {
    let fields = vec![(
        FIELD_SYMBOL_TABLE_IMPORTS,
        IonValue::List(vec![
            IonValue::Struct(vec![(FIELD_SYMBOL_TABLE_IMPORT_MAX_ID, IonValue::Int(75))]),
            IonValue::Null,
            IonValue::Struct(vec![(FIELD_SYMBOL_TABLE_IMPORT_MAX_ID, IonValue::Int(100))]),
        ]),
    )];
    assert_eq!(local_symbol_start(&fields), Some(167));
    assert_eq!(
        local_symbol_start(&[(
            FIELD_SYMBOL_TABLE_IMPORTS,
            IonValue::List(vec![IonValue::Struct(vec![(
                FIELD_SYMBOL_TABLE_IMPORT_MAX_ID,
                IonValue::Int(851),
            )])]),
        )]),
        Some(852)
    );
    assert_eq!(local_symbol_start(&[]), Some(10));
    assert_eq!(
        local_symbol_start(&[(
            FIELD_SYMBOL_TABLE_IMPORTS,
            IonValue::List(vec![IonValue::Struct(Vec::new())]),
        )]),
        None
    );
}

#[test]
fn kfx_text_references_require_their_declared_string_table() {
    let value = IonValue::Struct(vec![
        (FIELD_FRAGMENT_ID, IonValue::Symbol(42)),
        (FIELD_FRAGMENT_STRING_INDEX, IonValue::Int(0)),
    ]);
    let tables = BTreeMap::from([(9, vec!["unrelated".to_owned()])]);
    let mut unresolved = 0;

    assert!(referenced_strings(&value, &tables, &mut unresolved).is_empty());
    assert_eq!(unresolved, 1);
}

#[test]
fn kfx_heading_inference_requires_navigation_evidence() {
    assert_eq!(
        kfx_heading_level(Some("s1N"), "第一章", None, None, true, false, false),
        Some(1)
    );
    assert_eq!(
        kfx_heading_level(Some("s37"), "PART3", None, None, true, false, false),
        Some(3)
    );
    assert_eq!(
        kfx_heading_level(Some("s33"), "后续章节", None, None, true, false, false),
        Some(4)
    );
    assert_eq!(
        kfx_heading_level(Some("s37"), "普通正文", None, None, false, false, false),
        None
    );
    assert_eq!(
        kfx_heading_level(Some("s1r"), "目录", None, None, true, true, false),
        Some(4)
    );
    assert_eq!(
        kfx_heading_level(Some("s1r"), "序言", None, None, true, true, false),
        None
    );
    assert_eq!(
        kfx_heading_level(
            Some("s3b"),
            "BCG经验曲线新解",
            None,
            None,
            true,
            false,
            true
        ),
        None
    );
    assert_eq!(
        kfx_heading_level(Some("s99"), "未知标题", None, None, true, false, false),
        None
    );
    assert_eq!(
        kfx_heading_level(Some("s99"), "未知标题", None, None, true, false, true),
        Some(4)
    );
}

#[test]
fn kfx_source_heading_level_overrides_local_style_and_navigation_heuristics() {
    assert_eq!(
        kfx_heading_level(Some("s3b"), "正文标题", Some(2), None, false, false, false),
        Some(2)
    );
    assert_eq!(
        kfx_heading_level(None, "正文标题", Some(5), None, true, false, false),
        Some(5)
    );
}

#[test]
fn kfx_navigation_label_matching_normalizes_layout_whitespace() {
    let labels = BTreeMap::from([(7, vec!["引领企业走向可持续成功".to_owned()])]);
    assert!(kfx_navigation_label_matches(
        "引领企业 走向可持续成功",
        Some(7),
        &labels
    ));
    assert!(!kfx_navigation_label_matches("其他标题", Some(7), &labels));
}

#[test]
fn media_types_are_detected_from_raw_native_resources() {
    assert_eq!(media_type_for_bytes(&[0xff, 0xd8, 0xff]).0, "image/jpeg");
    assert_eq!(media_type_for_bytes(b"\x89PNG").0, "image/png");
}

#[test]
fn kfx_fragment_identity_includes_type_and_exact_fid_string() {
    let resource = FragmentKey {
        fragment_type: 417,
        fid: "resource/rsrc7".to_owned(),
    };
    let same_fid_different_type = FragmentKey {
        fragment_type: 418,
        fid: "resource/rsrc7".to_owned(),
    };

    assert_ne!(resource, same_fid_different_type);
    assert_ne!(
        resource,
        FragmentKey {
            fragment_type: 417,
            fid: "resource/rsrc07".to_owned(),
        }
    );
}

#[test]
fn kfx_resource_shape_recognizes_pdf_vector_and_composite_images() {
    assert_eq!(
        classify_resource_shape(Some("jpg"), Some("image/jpeg"), false, false),
        "DirectMedia"
    );
    assert_eq!(
        classify_resource_shape(Some("png"), Some("image/png"), true, false),
        "Tiled"
    );
    assert_eq!(
        classify_resource_shape(Some("png"), Some("image/png"), true, true),
        "OverlappedTile"
    );
    assert_eq!(
        classify_resource_shape(Some("pdf"), Some("application/pdf"), false, false),
        "PDF"
    );
    assert_eq!(
        classify_resource_shape(Some("svg"), Some("image/svg+xml"), false, false),
        "Vector"
    );
    assert_eq!(classify_resource_shape(None, None, false, false), "Unknown");
}

fn image_record() -> IonValue {
    IonValue::Struct(vec![
        (
            FIELD_CONTENT_NODE_TYPE,
            IonValue::Symbol(KFX_IMAGE_RECORD_NODE_TYPE),
        ),
        (FIELD_CONTENT_ORACLE_RESOURCE_SYMBOL, IonValue::Symbol(43)),
        (
            FIELD_FRAGMENT_TEXT,
            IonValue::String("image-alt".to_owned()),
        ),
    ])
}

fn caption(with_style: bool) -> IonValue {
    let mut fields = vec![
        (
            FIELD_CONTENT_NODE_TYPE,
            IonValue::Symbol(KFX_IMAGE_CAPTION_NODE_TYPE),
        ),
        (
            FIELD_TEXT_VALUES,
            IonValue::List(vec![IonValue::String("caption".to_owned()), image_record()]),
        ),
    ];
    if with_style {
        fields.push((
            FIELD_TEXT_STYLE_EVENTS,
            IonValue::List(vec![IonValue::Struct(Vec::new())]),
        ));
    }
    IonValue::Struct(fields)
}

fn image_container(caption: IonValue) -> IonValue {
    IonValue::Struct(vec![
        (
            FIELD_CONTENT_NODE_TYPE,
            IonValue::Symbol(KFX_IMAGE_CONTAINER_NODE_TYPE),
        ),
        (FIELD_TEXT_VALUES, IonValue::List(vec![caption])),
    ])
}

#[test]
fn illustrated_audit_requires_visible_styled_caption_not_image_label() {
    assert!(contains_illustrated_image_structure(&image_container(caption(
        true
    ))));
    assert!(!contains_illustrated_image_structure(&image_container(caption(
        false
    ))));
}

#[test]
fn localizes_link_ranges_across_nested_content_segments() {
    let ranges = vec![KfxTextLinkRange {
        text_offset: 504,
        text_length: 3,
        target_symbol_id: 2194,
    }];
    let second_segment_offset = advance_kfx_nested_text_offset(0, 46);

    assert_eq!(second_segment_offset, 47);
    assert_eq!(
        localize_kfx_link_ranges(&ranges, second_segment_offset, 540),
        vec![KfxTextLinkRange {
            text_offset: 457,
            text_length: 3,
            target_symbol_id: 2194,
        }]
    );
    assert!(localize_kfx_link_ranges(&ranges, 0, 46).is_empty());
}
