use std::collections::BTreeMap;

use folio_kfx::ion::IonValue;
use folio_kfx::mathml::{escape_kfx_xml, kfx_math_occurrence, sanitize_kfx_mathml, FIELD_MATH_CONTENT};

const NS: &str = "http://www.w3.org/1998/Math/MathML";

#[test]
fn xml_escaping_covers_the_five_special_characters() {
    assert_eq!(
        escape_kfx_xml("a<b & \"c\" 'd'>"),
        "a&lt;b &amp; &quot;c&quot; &apos;d&apos;&gt;"
    );
    assert_eq!(escape_kfx_xml("plain"), "plain");
}

#[test]
fn mathml_is_reserialized_with_allowed_attributes_only() {
    let input = format!(
        "<math xmlns=\"{NS}\" display=\"block\" alttext=\"x &lt; 2\" onclick=\"evil()\"><msup><mi>x</mi><mn>2</mn></msup><mspace/></math>"
    );
    let (mathml, alt, display) = sanitize_kfx_mathml(&input).unwrap();
    assert_eq!(
        mathml,
        format!(
            "<math xmlns=\"{NS}\" display=\"block\" alttext=\"x &lt; 2\"><msup><mi>x</mi><mn>2</mn></msup><mspace/></math>"
        )
    );
    assert_eq!(alt.as_deref(), Some("x < 2"));
    assert!(display);
}

#[test]
fn mathml_with_declarations_or_foreign_roots_is_refused() {
    assert!(sanitize_kfx_mathml(&format!("<!DOCTYPE math><math xmlns=\"{NS}\"/>")).is_none());
    assert!(sanitize_kfx_mathml(&format!("<!entity x><math xmlns=\"{NS}\"/>")).is_none());
    assert!(sanitize_kfx_mathml("<math><mi>x</mi></math>").is_none());
    assert!(sanitize_kfx_mathml(&format!("<svg xmlns=\"{NS}\"/>")).is_none());
    assert!(sanitize_kfx_mathml("<math xmlns=").is_none());
    assert!(sanitize_kfx_mathml(&format!("<math xmlns=\"{NS}\"><b xmlns=\"urn:x\"/></math>")).is_none());
}

#[test]
fn mathml_nesting_is_bounded() {
    let deep = |levels: usize| {
        let mut s = format!("<math xmlns=\"{NS}\">");
        for _ in 0..levels {
            s.push_str("<mrow>");
        }
        s.push_str("<mi>x</mi>");
        for _ in 0..levels {
            s.push_str("</mrow>");
        }
        s.push_str("</math>");
        s
    };
    assert!(sanitize_kfx_mathml(&deep(63)).is_some());
    assert!(sanitize_kfx_mathml(&deep(64)).is_none());
}

#[test]
fn math_occurrence_pairs_mathml_with_accessible_text() {
    let tables = BTreeMap::new();
    let with_alt = IonValue::Struct(vec![(
        FIELD_MATH_CONTENT,
        IonValue::List(vec![
            IonValue::String(format!("  <math xmlns=\"{NS}\" alttext=\"own\"><mi>x</mi></math>")),
            IonValue::String("spoken x".to_owned()),
        ]),
    )]);
    let occurrence = kfx_math_occurrence(&with_alt, &tables).unwrap();
    assert_eq!(occurrence.alt.as_deref(), Some("own"));
    assert!(!occurrence.display);
    assert_eq!(occurrence.mathml, format!("<math xmlns=\"{NS}\" alttext=\"own\"><mi>x</mi></math>"));
    assert_eq!(occurrence.provenance.content_field_id, 683);
    assert_eq!(occurrence.provenance.visual_fragment_type, None);

    let without_alt = IonValue::Struct(vec![(
        FIELD_MATH_CONTENT,
        IonValue::SExp(vec![
            IonValue::String("spoken x".to_owned()),
            IonValue::String(format!("<math xmlns=\"{NS}\"><mi>x</mi></math>")),
        ]),
    )]);
    let occurrence = kfx_math_occurrence(&without_alt, &tables).unwrap();
    assert_eq!(occurrence.alt.as_deref(), Some("spoken x"));

    let no_math = IonValue::Struct(vec![(FIELD_MATH_CONTENT, IonValue::List(vec![IonValue::String("x".to_owned())]))]);
    assert!(kfx_math_occurrence(&no_math, &tables).is_none());
}
