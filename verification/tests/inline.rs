use std::collections::BTreeMap;

use folio_kfx::error::AmazonKfxError;
use folio_kfx::inline_runs::{kfx_inline_runs, kfx_link_target_href, kfx_text_children, kfx_text_runs, KfxInlineRun, KfxTextNode};
use folio_kfx::native::KfxLinkTarget;
use folio_kfx::links::{KfxTextLinkRange, KfxTextStyleEvent};
use folio_kfx::ruby::KfxRubyAnnotation;

fn text(value: &str) -> KfxInlineRun {
    KfxInlineRun::Text(value.to_owned())
}

fn reading_text(runs: &[KfxInlineRun]) -> String {
    runs.iter()
        .map(|run| match run {
            KfxInlineRun::Text(t) | KfxInlineRun::Sup(t) => t.clone(),
            KfxInlineRun::Link { text, .. } | KfxInlineRun::Footnote { text, .. } => text.clone(),
            KfxInlineRun::Ruby { base, .. } => base.clone(),
        })
        .collect()
}

fn sup(offset: i64, length: i64) -> KfxTextStyleEvent {
    KfxTextStyleEvent { list_index: 0, text_offset: Some(offset), text_length: Some(length), style_symbol_id: Some(617) }
}

fn link(offset: usize, length: usize) -> KfxTextLinkRange {
    KfxTextLinkRange { text_offset: offset, text_length: length, target_symbol_id: 923 }
}

#[test]
fn kfx_text_children_emits_standard_ruby_and_preserves_reading_text() {
    let annotations = vec![KfxRubyAnnotation { text_offset: 0, text_length: 1, text: "さくら".to_owned() }];
    let children =
        kfx_text_children(&mut 0, "桜前線", &Vec::new(), &Vec::new(), None, 0, &BTreeMap::new(), &annotations, &mut 0)
            .unwrap();
    assert_eq!(
        children,
        vec![
            KfxTextNode::Ruby {
                id: 0,
                base_id: 1,
                reading_id: 2,
                reading_text_id: 3,
                base: "桜".to_owned(),
                reading: "さくら".to_owned(),
            },
            KfxTextNode::Text { id: 4, value: "前線".to_owned() },
        ]
    );
    let runs = kfx_text_runs("桜前線", &Vec::new(), &Vec::new(), None, 0, &BTreeMap::new(), &annotations, &mut 0);
    assert_eq!(reading_text(&runs), "桜前線");
}

#[test]
fn kfx_text_children_preserves_link_on_scalar_shorter_than_source_range() {
    let targets = BTreeMap::from([((0, 923), KfxLinkTarget::Position(16_279))]);
    let link_ranges = vec![link(0, 2)];
    let mut unresolved = 0;
    let children =
        kfx_text_children(&mut 0, "有", &Vec::new(), &link_ranges, None, 0, &targets, &Vec::new(), &mut unresolved)
            .unwrap();
    assert_eq!(unresolved, 0);
    assert_eq!(
        children,
        vec![KfxTextNode::Link { id: 1, text_id: 0, value: "有".to_owned(), href: "kfx-position:16279".to_owned() }]
    );
}

#[test]
fn kfx_text_children_maps_only_linked_note_style_to_footnote() {
    let targets = BTreeMap::from([((0, 923), KfxLinkTarget::Position(16_279))]);
    let link_ranges = vec![link(0, 3)];
    let mut unresolved = 0;
    let children =
        kfx_text_children(&mut 0, "[1]", &vec![sup(0, 3)], &link_ranges, None, 0, &targets, &Vec::new(), &mut unresolved)
            .unwrap();
    assert_eq!(unresolved, 0);
    assert_eq!(
        children,
        vec![KfxTextNode::Footnote {
            id: 0,
            text_id: 1,
            value: "[1]".to_owned(),
            href: "kfx-position:16279".to_owned(),
            link_target_symbol_id: 923,
        }]
    );
}

#[test]
fn text_children_fail_when_node_ids_run_out() {
    let annotations = vec![KfxRubyAnnotation { text_offset: 0, text_length: 1, text: "さくら".to_owned() }];
    let mut next = u32::MAX - 3;
    let error = kfx_text_children(&mut next, "桜", &Vec::new(), &Vec::new(), None, 0, &BTreeMap::new(), &annotations, &mut 0)
        .unwrap_err();
    assert_eq!(error, AmazonKfxError::Semantic("KFX produced more nodes than the IR can identify".to_owned()));
    assert_eq!(next, u32::MAX);
    let mut next = u32::MAX - 4;
    let children =
        kfx_text_children(&mut next, "桜", &Vec::new(), &Vec::new(), None, 0, &BTreeMap::new(), &annotations, &mut 0)
            .unwrap();
    assert_eq!(children.len(), 1);
    assert_eq!(next, u32::MAX);
}

#[test]
fn superscript_markers_number_the_marker_before_its_text() {
    let children =
        kfx_text_children(&mut 10, "a1", &vec![sup(1, 1)], &Vec::new(), None, 0, &BTreeMap::new(), &Vec::new(), &mut 0)
            .unwrap();
    assert_eq!(
        children,
        vec![
            KfxTextNode::Text { id: 10, value: "a".to_owned() },
            KfxTextNode::Sup { id: 11, text_id: 12, value: "1".to_owned() },
        ]
    );
}

#[test]
fn link_targets_resolve_in_their_container_and_count_misses() {
    let targets = BTreeMap::from([
        ((0, 923), KfxLinkTarget::Position(16_279)),
        ((1, 7), KfxLinkTarget::Uri("https://example.org/".to_owned())),
    ]);
    let mut unresolved = usize::MAX - 1;
    assert_eq!(kfx_link_target_href(0, 923, &targets, &mut unresolved).as_deref(), Some("kfx-position:16279"));
    assert_eq!(kfx_link_target_href(1, 7, &targets, &mut unresolved).as_deref(), Some("https://example.org/"));
    assert_eq!(unresolved, usize::MAX - 1);
    assert_eq!(kfx_link_target_href(1, 923, &targets, &mut unresolved), None);
    assert_eq!(kfx_link_target_href(0, 7, &targets, &mut unresolved), None);
    assert_eq!(unresolved, usize::MAX);
}

#[test]
fn node_target_counts_as_unresolved_only_without_link_ranges() {
    let targets: BTreeMap<(usize, u64), KfxLinkTarget> = BTreeMap::new();
    let mut unresolved = 0;
    let runs = kfx_text_runs("ab", &Vec::new(), &Vec::new(), Some(5), 0, &targets, &Vec::new(), &mut unresolved);
    assert_eq!(runs, vec![text("ab")]);
    assert_eq!(unresolved, 1);
    let runs = kfx_text_runs("ab", &Vec::new(), &vec![link(0, 1)], Some(5), 0, &targets, &Vec::new(), &mut unresolved);
    assert_eq!(runs, vec![text("ab")]);
    assert_eq!(unresolved, 2);
}

#[test]
fn superscript_without_a_link_stays_a_marker() {
    let runs = kfx_inline_runs("note1", &vec![sup(4, 1)], &Vec::new(), &Vec::new(), &Vec::new(), None);
    assert_eq!(runs, vec![text("note"), KfxInlineRun::Sup("1".to_owned())]);
}

#[test]
fn unresolved_links_and_out_of_range_events_leave_plain_text() {
    let links = vec![link(0, 2)];
    let runs = kfx_inline_runs("abc", &vec![sup(2, 5), sup(-1, 1)], &Vec::new(), &links, &vec![None], None);
    assert_eq!(runs, vec![text("abc")]);
}

#[test]
fn node_target_links_all_text_only_without_link_ranges() {
    let runs = kfx_inline_runs("abc", &Vec::new(), &Vec::new(), &Vec::new(), &Vec::new(), Some("#n".to_owned()));
    assert_eq!(runs, vec![KfxInlineRun::Link { text: "abc".to_owned(), href: "#n".to_owned() }]);
    let links = vec![link(1, 1)];
    let hrefs = vec![Some("#m".to_owned())];
    let runs = kfx_inline_runs("abc", &Vec::new(), &Vec::new(), &links, &hrefs, Some("#n".to_owned()));
    assert_eq!(runs, vec![text("a"), KfxInlineRun::Link { text: "b".to_owned(), href: "#m".to_owned() }, text("c")]);
}

#[test]
fn overlapping_ranges_keep_the_first_in_order_and_the_text_whole() {
    let annotations = vec![KfxRubyAnnotation { text_offset: 1, text_length: 2, text: "r".to_owned() }];
    let links = vec![link(0, 2)];
    let hrefs = vec![Some("#x".to_owned())];
    let runs = kfx_inline_runs("abcd", &Vec::new(), &annotations, &links, &hrefs, None);
    assert_eq!(
        runs,
        vec![KfxInlineRun::Link { text: "ab".to_owned(), href: "#x".to_owned() }, text("cd")]
    );
    assert_eq!(reading_text(&runs), "abcd");
}

#[test]
fn equal_ranges_take_link_before_ruby() {
    let annotations = vec![KfxRubyAnnotation { text_offset: 0, text_length: 1, text: "r".to_owned() }];
    let links = vec![link(0, 1)];
    let hrefs = vec![Some("#x".to_owned())];
    let runs = kfx_inline_runs("ab", &Vec::new(), &annotations, &links, &hrefs, None);
    assert_eq!(
        runs,
        vec![KfxInlineRun::Link { text: "a".to_owned(), href: "#x".to_owned() }, text("b")]
    );
}
