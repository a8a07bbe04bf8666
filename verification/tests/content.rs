use std::collections::{BTreeMap, BTreeSet};

use folio_kfx::audit_path::IonAuditPathToken;
use folio_kfx::content_walk::{
    collect_content_segments_traced, link_target_positions, trace_content, ContentDecodeContext, ContentInherited,
    ContentResources, ContentTraceSource, ContentWalk, KfxContentSegment,
};
use folio_kfx::error::AmazonKfxError;
use folio_kfx::ion::IonValue;
use folio_kfx::native::{KfxLinkTarget, NativeContainerOwned, NativeFragment, NativeModel};
use folio_kfx::symbols::SymbolTable;
use folio_kfx::text_audit::{audit_text_events, BookRoles};

fn field(id: u64, value: IonValue) -> (u64, IonValue) {
    (id, value)
}

fn string(text: &str) -> IonValue {
    IonValue::String(text.to_owned())
}

fn top() -> ContentInherited<'static> {
    ContentInherited {
        position: None,
        style_name: None,
        single_text_position: None,
        single_text_heading_level: None,
        inside_image_container: false,
        inline_image_context: false,
        emit_scoped_image_text: false,
        allow_content_list_text: false,
        heading_position: None,
        link_target: None,
        link_ranges: &[],
        image_link_target: None,
    }
}

fn empty_walk() -> ContentWalk {
    ContentWalk {
        segments: Vec::new(),
        unresolved: 0,
        inferred_images: 0,
        link_target_segment_indices: BTreeMap::new(),
        events: Vec::new(),
    }
}

fn source() -> ContentTraceSource {
    ContentTraceSource {
        section_id: Some("S1".to_owned()),
        story_id: None,
        source_fragment: "F001".to_owned(),
        source_fragment_order: 0,
        eid: 9,
    }
}

fn texts(walk: &ContentWalk) -> Vec<(Option<u32>, Option<u32>, String)> {
    walk.segments
        .iter()
        .filter_map(|segment| match segment {
            KfxContentSegment::Text(t) => Some((t.position, t.navigation_heading_position, t.text.clone())),
            _ => None,
        })
        .collect()
}

struct Maps {
    tables: BTreeMap<u32, Vec<String>>,
    ruby: BTreeMap<(usize, u64), BTreeMap<u64, String>>,
    resources: BTreeMap<u64, (u32, bool)>,
    headings: BTreeMap<u32, u8>,
    links: BTreeSet<u32>,
}

fn maps() -> Maps {
    Maps {
        tables: BTreeMap::from([(7, vec!["pooled".to_owned()])]),
        ruby: BTreeMap::new(),
        resources: BTreeMap::new(),
        headings: BTreeMap::from([(5, 1)]),
        links: BTreeSet::from([5]),
    }
}

fn context(m: &Maps) -> ContentDecodeContext<'_> {
    ContentDecodeContext {
        container_index: 0,
        string_tables: &m.tables,
        ruby_contents: &m.ruby,
        resource_symbols: &m.resources,
        image_resource_symbols: &m.resources,
        style_names: None,
        image_record_symbol: None,
        navigation_heading_levels: Some(&m.headings),
        link_target_positions: &m.links,
    }
}

fn heading_block() -> IonValue {
    IonValue::Struct(vec![
        field(155, IonValue::Int(5)),
        field(146, IonValue::List(vec![string("Title"), string(""), string("more")])),
    ])
}

#[test]
fn content_list_text_takes_the_heading_target_once() {
    let m = maps();
    let mut walk = empty_walk();
    let mut path = Vec::new();
    let mut pending = false;
    collect_content_segments_traced(&heading_block(), &context(&m), &top(), None, &mut path, &mut walk, &mut pending);
    assert_eq!(
        texts(&walk),
        vec![(Some(5), Some(5), "Title".to_owned()), (Some(5), None, "more".to_owned())]
    );
    assert!(walk.events.is_empty());
    assert!(path.is_empty());
    assert_eq!(walk.link_target_segment_indices, BTreeMap::from([(5, 0)]));
}

#[test]
fn traced_text_events_carry_their_source_paths() {
    let m = maps();
    let mut walk = empty_walk();
    let mut path = Vec::new();
    let mut pending = false;
    let src = source();
    collect_content_segments_traced(&heading_block(), &context(&m), &top(), Some(&src), &mut path, &mut walk, &mut pending);
    let paths: Vec<(String, String, String)> = walk
        .events
        .iter()
        .map(|e| (e.source_path.clone(), e.text_kind.clone(), e.text.clone()))
        .collect();
    assert_eq!(
        paths,
        vec![
            ("$146[0]".to_owned(), "bare_content_list_text".to_owned(), "Title".to_owned()),
            ("$146[2]".to_owned(), "bare_content_list_text".to_owned(), "more".to_owned()),
        ]
    );
    assert_eq!(walk.events[0].section_id.as_deref(), Some("S1"));
    assert_eq!(walk.events[0].eid, 9);
    assert_eq!(walk.events[0].source_position, Some(5));
}

#[test]
fn string_references_resolve_in_the_tables_or_count_as_unresolved() {
    let m = maps();
    let reference = |table: u64, index: i64| {
        IonValue::Struct(vec![field(4, IonValue::Symbol(table)), field(403, IonValue::Int(index))])
    };
    let value = IonValue::List(vec![
        IonValue::Struct(vec![field(155, IonValue::Int(8)), field(145, reference(7, 0))]),
        IonValue::Struct(vec![field(145, reference(7, 3))]),
        IonValue::Struct(vec![field(584, string("direct"))]),
    ]);
    let mut walk = empty_walk();
    let mut path = vec![IonAuditPathToken::Field(146)];
    let mut pending = false;
    let src = source();
    collect_content_segments_traced(&value, &context(&m), &top(), Some(&src), &mut path, &mut walk, &mut pending);
    assert_eq!(texts(&walk), vec![(Some(8), None, "pooled".to_owned()), (None, None, "direct".to_owned())]);
    assert_eq!(walk.unresolved, 1);
    assert_eq!(walk.events[0].source_path, "$146[0].$145");
    assert_eq!(walk.events[0].text_kind, "string_reference");
    assert_eq!(walk.events[1].source_path, "$146[2].$584");
    assert_eq!(walk.events[1].text_kind, "direct_text");
    assert_eq!(path, vec![IonAuditPathToken::Field(146)]);
}

#[test]
fn image_records_become_image_segments() {
    let mut m = maps();
    m.resources.insert(300, (4, true));
    let mut ctx = context(&m);
    ctx.image_record_symbol = Some(271);
    let record = IonValue::Struct(vec![
        field(155, IonValue::Int(12)),
        field(159, IonValue::Symbol(271)),
        field(175, IonValue::Symbol(300)),
        field(584, string("a photo")),
    ]);
    let mut walk = empty_walk();
    let mut path = Vec::new();
    let mut pending = false;
    collect_content_segments_traced(&record, &ctx, &top(), None, &mut path, &mut walk, &mut pending);
    assert_eq!(walk.segments.len(), 1);
    match &walk.segments[0] {
        KfxContentSegment::Image { position, resource, alt, inline, .. } => {
            assert_eq!(*position, Some(12));
            assert_eq!(*resource, 4);
            assert_eq!(alt, "a photo");
            assert!(!inline);
        }
        other => panic!("expected an image, got {other:?}"),
    }
    assert_eq!(walk.inferred_images, 0);
}

#[test]
fn link_target_positions_are_the_position_targets() {
    let targets = BTreeMap::from([
        ((0, 1), KfxLinkTarget::Position(40)),
        ((1, 2), KfxLinkTarget::Uri("https://example.org/".to_owned())),
        ((2, 3), KfxLinkTarget::Position(41)),
    ]);
    assert_eq!(link_target_positions(&targets), BTreeSet::from([40, 41]));
}

fn book() -> NativeModel {
    let mut model = NativeModel::new();
    model.containers.push(NativeContainerOwned { input_index: 0, byte_offset: 0, entity_count: 2, symbols: SymbolTable::new() });
    model.fragments.push(NativeFragment { container_index: 0, entity_id: 3, fragment_type: 260, value: heading_block() });
    model.fragments.push(NativeFragment { container_index: 0, entity_id: 7, fragment_type: 259, value: heading_block() });
    model
}

#[test]
fn tracing_walks_each_content_fragment_in_order() {
    let resources = ContentResources { resource_symbols: Vec::new(), image_resource_symbols: Vec::new() };
    let trace = trace_content(&book(), &resources, false);
    let events: Vec<(String, usize, u32, String)> = trace
        .capture
        .events
        .iter()
        .map(|e| (e.source_fragment.clone(), e.source_fragment_order, e.eid, e.text.clone()))
        .collect();
    assert_eq!(
        events,
        vec![
            ("F001".to_owned(), 0, 7, "Title".to_owned()),
            ("F001".to_owned(), 0, 7, "more".to_owned()),
        ]
    );
    assert_eq!(trace.capture.unresolved_text_reference_count, 0);
    assert!(!trace.capture.include_private_text);
    assert!(trace.native.is_empty());
}

fn roles() -> BookRoles {
    BookRoles { footnotes: false, mathml: false, figure: false, image: false, text: true }
}

#[test]
fn text_event_audit_requires_cont_input() {
    let resources = ContentResources { resource_symbols: Vec::new(), image_resource_symbols: Vec::new() };
    let error = audit_text_events(b"not-a-kfx", false, &resources, roles()).unwrap_err();
    assert_eq!(
        error,
        AmazonKfxError::InvalidHeader("text-event audit requires an Amazon CONT KFX input".to_owned())
    );
}

#[test]
fn tracing_leaves_the_segments_unchanged() {
    let m = maps();
    let value = IonValue::List(vec![heading_block(), IonValue::Struct(vec![field(584, string("tail"))])]);
    let mut plain = empty_walk();
    let mut traced = empty_walk();
    let (mut p1, mut p2) = (false, false);
    let src = source();
    collect_content_segments_traced(&value, &context(&m), &top(), None, &mut Vec::new(), &mut plain, &mut p1);
    collect_content_segments_traced(
        &value,
        &context(&m),
        &top(),
        Some(&src),
        &mut vec![IonAuditPathToken::Index(3)],
        &mut traced,
        &mut p2,
    );
    assert_eq!(texts(&plain), texts(&traced));
    assert_eq!(plain.link_target_segment_indices, traced.link_target_segment_indices);
    assert_eq!(p1, p2);
    assert!(plain.events.is_empty());
    assert_eq!(traced.events.len(), 3);
    assert_eq!(traced.events[2].source_path, "[3][1].$584");
}
