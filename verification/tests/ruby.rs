use std::collections::BTreeMap;

use folio_kfx::ion::IonValue;
use folio_kfx::native::{NativeFragment, NativeModel};
use folio_kfx::ruby::{
    collect_ruby_contents, content_ruby_annotations, ruby_text_for_id, KfxRubyAnnotation,
    FIELD_RUBY_FRAGMENT_SYMBOL, FIELD_RUBY_ID_LIST,
};
use folio_kfx::text_events::{FIELD_RUBY_ID, KFX_RUBY_CONTENT_FRAGMENT_TYPE};

const FIELD_TEXT_VALUES: u64 = 146;
const FIELD_CONTENT_STRING_REFERENCE: u64 = 145;
const FIELD_TEXT_STYLE_EVENTS: u64 = 142;
const FIELD_TEXT_STYLE_OFFSET: u64 = 143;
const FIELD_TEXT_STYLE_LENGTH: u64 = 144;

fn ruby(offset: usize, length: usize, text: &str) -> KfxRubyAnnotation {
    KfxRubyAnnotation { text_offset: offset, text_length: length, text: text.to_owned() }
}

#[test]
fn ruby_content_fragments_resolve_by_container_and_ruby_id() {
    let mut model = NativeModel::new();
    model.fragments = vec![NativeFragment {
        container_index: 3,
        entity_id: 918,
        fragment_type: KFX_RUBY_CONTENT_FRAGMENT_TYPE,
        value: IonValue::Struct(vec![(
            FIELD_TEXT_VALUES,
            IonValue::List(vec![IonValue::Struct(vec![
                (FIELD_RUBY_ID, IonValue::Int(4)),
                (FIELD_CONTENT_STRING_REFERENCE, IonValue::String("さくら".to_owned())),
            ])]),
        )]),
    }];

    let contents = collect_ruby_contents(&model);
    assert_eq!(
        contents.get(&(3, 918)).and_then(|values| values.get(&4)),
        Some(&"さくら".to_owned())
    );
}

#[test]
fn ruby_multi_range_events_resolve_each_declared_range() {
    let ruby_contents = BTreeMap::from([(
        (0, 918),
        BTreeMap::from([(1, "さくら".to_owned()), (2, "ぜん".to_owned())]),
    )]);
    let event = IonValue::Struct(vec![
        (FIELD_RUBY_FRAGMENT_SYMBOL, IonValue::Symbol(918)),
        (
            FIELD_RUBY_ID_LIST,
            IonValue::List(vec![
                IonValue::Struct(vec![
                    (FIELD_TEXT_STYLE_OFFSET, IonValue::Int(0)),
                    (FIELD_TEXT_STYLE_LENGTH, IonValue::Int(1)),
                    (FIELD_RUBY_ID, IonValue::Int(1)),
                ]),
                IonValue::Struct(vec![
                    (FIELD_TEXT_STYLE_OFFSET, IonValue::Int(1)),
                    (FIELD_TEXT_STYLE_LENGTH, IonValue::Int(1)),
                    (FIELD_RUBY_ID, IonValue::Int(2)),
                ]),
            ]),
        ),
    ]);
    let parent = IonValue::Struct(vec![(FIELD_TEXT_STYLE_EVENTS, IonValue::List(vec![event]))]);

    assert_eq!(
        content_ruby_annotations(&parent, &ruby_contents, 0, 2),
        vec![ruby(0, 1, "さくら"), ruby(1, 1, "ぜん")]
    );
}

#[test]
fn ruby_contents_are_filed_under_the_declared_symbol_too() {
    let mut model = NativeModel::new();
    model.string_tables.insert(7, vec!["ぜん".to_owned()]);
    model.fragments = vec![
        NativeFragment {
            container_index: 1,
            entity_id: 20,
            fragment_type: KFX_RUBY_CONTENT_FRAGMENT_TYPE,
            value: IonValue::Struct(vec![
                (FIELD_RUBY_FRAGMENT_SYMBOL, IonValue::Symbol(900)),
                (
                    FIELD_TEXT_VALUES,
                    IonValue::SExp(vec![
                        IonValue::Struct(vec![
                            (FIELD_RUBY_ID, IonValue::Int(2)),
                            (
                                FIELD_CONTENT_STRING_REFERENCE,
                                IonValue::Struct(vec![(4, IonValue::Symbol(7)), (403, IonValue::Int(0))]),
                            ),
                        ]),
                        IonValue::Struct(vec![(FIELD_RUBY_ID, IonValue::Int(-1)), (584, IonValue::String("x".to_owned()))]),
                    ]),
                ),
            ]),
        },
        NativeFragment {
            container_index: 1,
            entity_id: 21,
            fragment_type: KFX_RUBY_CONTENT_FRAGMENT_TYPE,
            value: IonValue::Struct(vec![(FIELD_TEXT_VALUES, IonValue::List(Vec::new()))]),
        },
    ];

    let contents = collect_ruby_contents(&model);
    assert_eq!(contents.len(), 2);
    assert_eq!(contents[&(1, 20)], BTreeMap::from([(2, "ぜん".to_owned())]));
    assert_eq!(contents[&(1, 900)], BTreeMap::from([(2, "ぜん".to_owned())]));
    assert_eq!(ruby_text_for_id(&contents, 1, 900, 2), Some("ぜん".to_owned()));
    assert_eq!(ruby_text_for_id(&contents, 1, 900, -2), None);
    assert_eq!(ruby_text_for_id(&contents, 0, 900, 2), None);
}

#[test]
fn ruby_annotations_are_sorted_deduplicated_and_bounded_by_the_text() {
    let ruby_contents = BTreeMap::from([((0, 5), BTreeMap::from([(1, "a".to_owned()), (2, "b".to_owned())]))]);
    let event = |offset: i64, length: i64, id: i64| {
        IonValue::Struct(vec![
            (FIELD_RUBY_FRAGMENT_SYMBOL, IonValue::Symbol(5)),
            (FIELD_TEXT_STYLE_OFFSET, IonValue::Int(offset)),
            (FIELD_TEXT_STYLE_LENGTH, IonValue::Int(length)),
            (FIELD_RUBY_ID, IonValue::Int(id)),
        ])
    };
    let parent = IonValue::Struct(vec![(
        FIELD_TEXT_STYLE_EVENTS,
        IonValue::List(vec![
            event(2, 2, 2),
            event(0, 2, 1),
            event(2, 2, 2),
            event(2, 1, 1),
            event(3, 5, 1),
            event(0, 1, 9),
        ]),
    )]);

    assert_eq!(
        content_ruby_annotations(&parent, &ruby_contents, 0, 4),
        vec![ruby(0, 2, "a"), ruby(2, 1, "a"), ruby(2, 2, "b")]
    );
    assert!(content_ruby_annotations(&IonValue::Struct(Vec::new()), &ruby_contents, 0, 4).is_empty());
}
