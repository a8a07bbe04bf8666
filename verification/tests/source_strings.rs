use std::collections::BTreeMap;

use folio_kfx::audit_path::IonAuditPathToken;
use folio_kfx::error::AmazonKfxError;
use folio_kfx::ion::IonValue;
use folio_kfx::source_strings::{
    audit_source_string_matches, audit_source_strings, collect_source_string_entries,
    collect_source_string_references, source_string_inventory_row, SourceStringEntry,
    SourceStringFragmentContext, SourceStringQueryMatcher, SourceStringReference,
};

const FIELD_FRAGMENT_ID: u64 = 4;
const FIELD_TEXT_VALUES: u64 = 146;
const FIELD_CONTENT_STRING_REFERENCE: u64 = 145;
const FIELD_FRAGMENT_STRING_INDEX: u64 = 403;
const FIELD_FRAGMENT_TEXT: u64 = 584;

fn context(index: usize, fragment_type: u32, entity: u32, alias: Option<&str>, table: Option<u32>) -> SourceStringFragmentContext {
    SourceStringFragmentContext {
        fragment_index: index,
        fragment_type,
        entity_id: entity,
        content_fragment_alias: alias.map(str::to_owned),
        string_table_id: table,
    }
}

fn entries_of(value: &IonValue, ctx: &SourceStringFragmentContext, matcher: Option<&SourceStringQueryMatcher>) -> Vec<SourceStringEntry> {
    let mut path: Vec<IonAuditPathToken> = Vec::new();
    let mut parents = Vec::new();
    let mut out = Vec::new();
    collect_source_string_entries(value, ctx, matcher, &mut path, &mut parents, &mut out);
    assert!(path.is_empty() && parents.is_empty());
    out
}

#[test]
fn source_string_inventory_preserves_string_pool_paths_and_reference_roles() {
    let pool = IonValue::Struct(vec![
        (FIELD_FRAGMENT_ID, IonValue::Symbol(42)),
        (
            FIELD_TEXT_VALUES,
            IonValue::List(vec![IonValue::String("private oracle-only text".to_owned())]),
        ),
    ]);
    let content = IonValue::Struct(vec![(
        FIELD_TEXT_VALUES,
        IonValue::List(vec![IonValue::Struct(vec![(
            FIELD_CONTENT_STRING_REFERENCE,
            IonValue::Struct(vec![
                (FIELD_FRAGMENT_ID, IonValue::Symbol(42)),
                (FIELD_FRAGMENT_STRING_INDEX, IonValue::Int(0)),
            ]),
        )])]),
    )]);
    let entries = entries_of(&pool, &context(0, 145, 700, None, Some(42)), None);
    let source_tables = BTreeMap::from([(42, vec!["private oracle-only text".to_owned()])]);
    let mut path: Vec<IonAuditPathToken> = Vec::new();
    let mut parents = Vec::new();
    let mut references: BTreeMap<(u32, usize), Vec<SourceStringReference>> = BTreeMap::new();
    collect_source_string_references(
        &content,
        &context(1, 259, 701, Some("F001"), None),
        &source_tables,
        &mut path,
        &mut parents,
        &mut references,
    );

    assert_eq!(entries.len(), 1);
    assert_eq!(entries[0].source_path, "$146[0]");
    assert_eq!(entries[0].parent_field_ids, vec![FIELD_TEXT_VALUES]);
    assert_eq!(entries[0].string_table_id, Some(42));
    assert_eq!(entries[0].string_table_index, Some(0));
    let matched_references = references.get(&(42, 0)).expect("pool entry reference");
    assert_eq!(matched_references.len(), 1);
    assert_eq!(matched_references[0].content_fragment_alias.as_deref(), Some("F001"));
    assert_eq!(matched_references[0].source_path, "$146[0].$145");
    assert_eq!(matched_references[0].role_candidate, "content_fragment_string_reference_candidate");
}

fn make_entry() -> SourceStringEntry {
    SourceStringEntry {
        fragment_index: 0,
        fragment_type: 259,
        entity_id: 700,
        content_fragment_alias: Some("F001".to_owned()),
        source_path: "$146[0].$584".to_owned(),
        parent_field_ids: vec![FIELD_TEXT_VALUES, FIELD_FRAGMENT_TEXT],
        string_table_id: None,
        string_table_index: None,
        matched_query_ids: Vec::new(),
        exact_query_ids: Vec::new(),
        text: "private source string marker".to_owned(),
    }
}

#[test]
fn source_string_inventory_keeps_private_values_opt_in() {
    let public = source_string_inventory_row(&make_entry(), 0, Vec::new(), false);
    assert!(public.private_text.is_none());
    assert!(!format!("{:?}", public).contains("private source string marker"));

    let private = source_string_inventory_row(&make_entry(), 0, Vec::new(), true);
    assert_eq!(private.private_text.as_deref(), Some("private source string marker"));
}

#[test]
fn source_string_query_walk_returns_only_matching_content_free_rows() {
    let marker = "PRIVATE-QUERY-MARKER-197a";
    let value = IonValue::Struct(vec![(
        FIELD_FRAGMENT_TEXT,
        IonValue::String(format!("before {marker} after")),
    )]);
    let queries = vec![("H0001".to_owned(), marker.to_owned(), false)];
    let query_matcher = SourceStringQueryMatcher::new(&queries);
    let mut entries = entries_of(&value, &context(0, 259, 700, Some("F001"), None), Some(&query_matcher));

    assert_eq!(entries.len(), 1);
    assert_eq!(entries[0].matched_query_ids, vec!["H0001"]);
    let public = source_string_inventory_row(&entries.remove(0), 0, Vec::new(), false);
    assert_eq!(public.matched_query_ids[0], "H0001");
    assert!(public.private_text.is_none());
    assert!(!format!("{:?}", public).contains(marker));
}

#[test]
fn source_string_rows_describe_role_length_and_digest() {
    let row = source_string_inventory_row(&make_entry(), 41, Vec::new(), false);
    assert_eq!(row.string_id, "S0000042");
    assert_eq!(row.role_candidate, "direct_text_field_584_candidate");
    assert_eq!(row.unicode_scalar_length, 28);
    assert_eq!(row.sha256_raw_audit_only.len(), 64);
    assert_eq!(row.reference_count, 0);

    let mut pooled = make_entry();
    pooled.string_table_id = Some(3);
    pooled.string_table_index = Some(0);
    pooled.source_path = "$146[0]".to_owned();
    assert_eq!(source_string_inventory_row(&pooled, 0, Vec::new(), false).role_candidate, "string_table_entry_candidate");
    pooled.string_table_id = None;
    assert_eq!(source_string_inventory_row(&pooled, 9_999_999, Vec::new(), false).role_candidate, "unclassified_raw_string");
    assert_eq!(source_string_inventory_row(&pooled, 9_999_999, Vec::new(), false).string_id, "S10000000");
}

#[test]
fn source_string_queries_report_exact_and_containing_matches_sorted() {
    let queries = vec![
        ("Q2".to_owned(), "alpha beta".to_owned(), true),
        ("Q1".to_owned(), "beta".to_owned(), false),
        ("Q3".to_owned(), String::new(), false),
        ("Q0".to_owned(), "alpha beta".to_owned(), false),
        ("Q4".to_owned(), "gamma".to_owned(), true),
    ];
    let matcher = SourceStringQueryMatcher::new(&queries);
    let value = IonValue::List(vec![
        IonValue::String("alpha beta".to_owned()),
        IonValue::String("gamma delta".to_owned()),
    ]);
    let entries = entries_of(&value, &context(2, 259, 9, None, None), Some(&matcher));
    assert_eq!(entries.len(), 1);
    assert_eq!(entries[0].source_path, "[0]");
    assert_eq!(entries[0].matched_query_ids, vec!["Q0", "Q1", "Q2"]);
    assert_eq!(entries[0].exact_query_ids, vec!["Q0", "Q2"]);
    assert_eq!(entries[0].string_table_id, None);
}

#[test]
fn source_string_audit_requires_cont_input() {
    assert_eq!(
        audit_source_strings(b"private-title-not-a-kfx", false).unwrap_err(),
        AmazonKfxError::InvalidHeader("source-string audit requires an Amazon CONT KFX input".to_owned())
    );
    let queries = vec![("H1".to_owned(), "x".to_owned(), false)];
    assert!(audit_source_string_matches(b"nope", &queries).is_err());
}
