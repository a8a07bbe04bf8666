use std::collections::{BTreeMap, BTreeSet};

use folio_kfx::ion::IonValue;
use folio_kfx::nav_index::{
    collect_navigation_heading_levels, collect_navigation_labels, collect_navigation_positions,
    collect_navigation_section_symbols, collect_navigation_targets, count_navigation_points,
    filter_kfx_navigation, insert_target_location, kfx_navigation_position,
    mark_target_location_ambiguous, resolve_navigation, NavPoint, TargetLocation,
};
use folio_kfx::native::{NativeFragment, NavPointDraft};

fn point(label: &str, href: &str, children: Vec<NavPoint>) -> NavPoint {
    NavPoint { label: label.to_owned(), href: href.to_owned(), children }
}

fn draft(label: &str, target: u32, heading_level: Option<u8>, children: Vec<NavPointDraft>) -> NavPointDraft {
    NavPointDraft { label: label.to_owned(), target, heading_level, children }
}

fn location(document: u32, node: u32, href: &str) -> TargetLocation {
    TargetLocation { document, node, href: href.to_owned(), anchor_name: String::new() }
}

#[test]
fn kfx_navigation_filter_removes_internal_nav_units_only() {
    let points = vec![
        point("Part One", "part.xhtml", vec![point("Chapter One", "chapter.xhtml", Vec::new())]),
        point(
            "heading-nav-unit",
            "internal.xhtml",
            vec![point("Duplicate heading", "internal.xhtml#heading", Vec::new())],
        ),
        point("Table Of Contents", "toc.xhtml", Vec::new()),
        point("Chapter One", "chapter.xhtml", Vec::new()),
    ];

    let filtered = filter_kfx_navigation(points);
    assert_eq!(filtered.len(), 1);
    assert_eq!(filtered[0].label, "Part One");
    assert_eq!(filtered[0].children[0].label, "Chapter One");
    assert_eq!(filtered[0].children.len(), 1);
}

#[test]
fn kfx_navigation_filter_removes_duplicate_synthetic_start() {
    let filtered = filter_kfx_navigation(vec![
        point("Chapter One", "chapter.xhtml#start", Vec::new()),
        point("Start", "chapter.xhtml#start", Vec::new()),
    ]);

    assert_eq!(filtered.len(), 1);
    assert_eq!(filtered[0].label, "Chapter One");
}

#[test]
fn navigation_filter_keeps_a_standalone_start_and_equal_destinations_with_other_labels() {
    let filtered = filter_kfx_navigation(vec![
        point(" Start ", "cover.xhtml", Vec::new()),
        point("Chapter One", "chapter.xhtml", Vec::new()),
        point("Chapter 1", "chapter.xhtml", Vec::new()),
        point("Chapter One ", "chapter.xhtml", Vec::new()),
    ]);

    assert_eq!(filtered.len(), 3);
    assert_eq!(filtered[0].label, " Start ");
    assert_eq!(filtered[1].label, "Chapter One");
    assert_eq!(filtered[2].label, "Chapter 1");
}

fn sample_tree() -> Vec<NavPointDraft> {
    vec![
        draft("Part One", 10, Some(1), vec![draft("Chapter One", 11, Some(2), Vec::new())]),
        draft("Chapter One again", 11, Some(3), Vec::new()),
        draft("Appendix", 12, None, Vec::new()),
    ]
}

#[test]
fn navigation_targets_labels_and_levels_follow_pre_order() {
    let tree = sample_tree();
    let mut targets = BTreeSet::new();
    targets.insert(99);
    collect_navigation_targets(&tree, &mut targets);
    assert_eq!(targets.into_iter().collect::<Vec<_>>(), vec![10, 11, 12, 99]);

    let mut labels = BTreeMap::new();
    collect_navigation_labels(&tree, &mut labels);
    assert_eq!(labels[&11], vec!["Chapter One".to_owned(), "Chapter One again".to_owned()]);
    assert_eq!(labels[&12], vec!["Appendix".to_owned()]);

    let mut levels = BTreeMap::new();
    collect_navigation_heading_levels(&tree, &mut levels);
    assert_eq!(levels.get(&10), Some(&1));
    assert_eq!(levels.get(&11), Some(&2));
    assert_eq!(levels.get(&12), None);
}

#[test]
fn navigation_positions_are_collected_from_nested_content() {
    let value = IonValue::Struct(vec![
        (155, IonValue::Int(10)),
        (
            146,
            IonValue::List(vec![
                IonValue::Struct(vec![(155, IonValue::Int(11))]),
                IonValue::Annotation {
                    symbols: vec![1],
                    value: Box::new(IonValue::Struct(vec![(155, IonValue::Int(12))])),
                },
                IonValue::Struct(vec![(155, IonValue::Int(-1))]),
            ]),
        ),
    ]);
    let targets = BTreeSet::from([10, 12, 40]);
    let mut output = BTreeSet::new();
    collect_navigation_positions(&value, &targets, &mut output);
    assert_eq!(output.into_iter().collect::<Vec<_>>(), vec![10, 12]);
}

#[test]
fn navigation_section_symbols_come_from_targeted_section_entries() {
    let section = || IonValue::Struct(vec![(
        141,
        IonValue::List(vec![
            IonValue::Struct(vec![(155, IonValue::Int(42001)), (176, IonValue::Symbol(700))]),
            IonValue::Struct(vec![(155, IonValue::Int(42002)), (176, IonValue::Symbol(701))]),
            IonValue::Struct(vec![(155, IonValue::Int(42001)), (176, IonValue::String("x".to_owned()))]),
        ]),
    )]);
    let fragments = vec![
        NativeFragment { container_index: 0, entity_id: 800, fragment_type: 260, value: section() },
        NativeFragment { container_index: 0, entity_id: 801, fragment_type: 259, value: section() },
    ];
    let targets = BTreeSet::from([42001]);
    let symbols = collect_navigation_section_symbols(&fragments, &targets);
    assert_eq!(symbols.into_iter().collect::<Vec<_>>(), vec![700]);
}

#[test]
fn navigation_position_prefers_the_run_then_its_parent() {
    let targets = BTreeSet::from([5, 6]);
    assert_eq!(kfx_navigation_position(Some(5), Some(6), &targets), Some(5));
    assert_eq!(kfx_navigation_position(Some(4), Some(6), &targets), Some(6));
    assert_eq!(kfx_navigation_position(None, Some(7), &targets), None);
}

#[test]
fn target_location_reused_at_another_node_becomes_ambiguous() {
    let mut locations = BTreeMap::new();
    insert_target_location(&mut locations, 7u32, location(0, 1, "a.xhtml#x"));
    insert_target_location(&mut locations, 7u32, location(0, 1, "a.xhtml#y"));
    assert_eq!(locations[&7].as_ref().map(|l| l.href.as_str()), Some("a.xhtml#x"));
    insert_target_location(&mut locations, 7u32, location(1, 1, "b.xhtml#x"));
    assert_eq!(locations[&7], None);
    insert_target_location(&mut locations, 7u32, location(0, 1, "a.xhtml#x"));
    assert_eq!(locations[&7], None);

    let mut symbols = BTreeMap::new();
    insert_target_location(&mut symbols, 900u64, location(2, 3, "c.xhtml"));
    mark_target_location_ambiguous(&mut symbols, 900u64);
    assert_eq!(symbols[&900], None);
}

#[test]
fn navigation_resolution_lifts_children_of_unresolved_points() {
    let tree = vec![
        draft("Part", 1, None, vec![draft("Chapter", 2, None, Vec::new())]),
        draft("Section", 3, None, Vec::new()),
        draft("Entity", 4, None, Vec::new()),
        draft("Ambiguous", 5, None, Vec::new()),
    ];
    let positions = BTreeMap::from([(2, Some(location(0, 2, "d.xhtml#p2"))), (5, None)]);
    let sections = BTreeMap::from([(3, Some(location(0, 3, "d.xhtml#s3"))), (5, Some(location(0, 5, "d.xhtml#s5")))]);
    let entities = BTreeMap::from([(4, Some(location(1, 0, "e.xhtml")))]);
    let mut unresolved = 0usize;
    let resolved = resolve_navigation(&tree, &positions, &sections, &entities, &mut unresolved);

    assert_eq!(unresolved, 2);
    let labels: Vec<&str> = resolved.iter().map(|p| p.label.as_str()).collect();
    assert_eq!(labels, vec!["Chapter", "Section", "Entity"]);
    assert_eq!(resolved[0].href, "d.xhtml#p2");
    assert_eq!(resolved[1].href, "d.xhtml#s3");
    assert_eq!(resolved[2].href, "e.xhtml");

    let mut saturated = usize::MAX;
    resolve_navigation(&tree, &positions, &sections, &entities, &mut saturated);
    assert_eq!(saturated, usize::MAX);
}

#[test]
fn navigation_point_count_includes_descendants() {
    let tree = point("a", "a", vec![point("b", "b", vec![point("c", "c", Vec::new())]), point("d", "d", Vec::new())]);
    assert_eq!(count_navigation_points(&tree), 4);
}
