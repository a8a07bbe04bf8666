use folio_kfx::audit_path::IonAuditPathToken;
use folio_kfx::ion::IonValue;
use folio_kfx::ion_audit::{ion_audit_step, ion_audit_value_summary, IonAuditSummary};

#[test]
fn text_source_audit_summarizes_strings_without_persisting_content() {
    let value = IonValue::String("private body text".to_owned());
    match ion_audit_value_summary(&value, false, None, false) {
        IonAuditSummary::Text { unicode_scalar_count, private_text, sha256_raw_audit_only } => {
            assert_eq!(unicode_scalar_count, 17);
            assert!(private_text.is_none());
            assert_eq!(sha256_raw_audit_only.len(), 64);
        }
        other => panic!("unexpected summary {other:?}"),
    }
    match ion_audit_value_summary(&value, true, None, false) {
        IonAuditSummary::Text { private_text, .. } => assert_eq!(private_text.as_deref(), Some("private body text")),
        other => panic!("unexpected summary {other:?}"),
    }
}

#[test]
fn struct_summaries_keep_the_first_fields_only() {
    let fields: Vec<(u64, IonValue)> = (0..40).map(|i| (i, IonValue::Int(i as i64))).collect();
    match ion_audit_value_summary(&IonValue::Struct(fields), false, None, true) {
        IonAuditSummary::Struct { field_count, fields, fields_truncated } => {
            assert_eq!(field_count, 40);
            assert_eq!(fields.len(), 32);
            assert!(fields_truncated);
        }
        other => panic!("unexpected summary {other:?}"),
    }
    match ion_audit_value_summary(&IonValue::Symbol(7), false, None, true) {
        IonAuditSummary::Symbol { symbol_id, resolved_name } => {
            assert_eq!(symbol_id, 7);
            assert_eq!(resolved_name, Some(None));
        }
        other => panic!("unexpected summary {other:?}"),
    }
}

#[test]
fn audit_steps_report_selected_child_and_nearby_siblings() {
    let list = IonValue::Annotation {
        symbols: vec![3],
        value: Box::new(IonValue::List((0..6).map(IonValue::Int).collect())),
    };
    let (child, siblings) = ion_audit_step(&list, IonAuditPathToken::Index(4)).unwrap();
    assert!(matches!(child, IonValue::Int(4)));
    let edges: Vec<IonAuditPathToken> = siblings.iter().map(|(edge, _)| *edge).collect();
    assert_eq!(edges, vec![IonAuditPathToken::Index(2), IonAuditPathToken::Index(3), IonAuditPathToken::Index(5)]);
    assert!(ion_audit_step(&list, IonAuditPathToken::Index(6)).is_none());
    assert!(ion_audit_step(&list, IonAuditPathToken::Field(1)).is_none());

    let record = IonValue::Struct(vec![(1, IonValue::Int(10)), (2, IonValue::Int(20)), (1, IonValue::Int(30))]);
    let (child, siblings) = ion_audit_step(&record, IonAuditPathToken::Field(1)).unwrap();
    assert!(matches!(child, IonValue::Int(10)));
    let edges: Vec<IonAuditPathToken> = siblings.iter().map(|(edge, _)| *edge).collect();
    assert_eq!(edges, vec![IonAuditPathToken::Field(2), IonAuditPathToken::Field(1)]);
}
