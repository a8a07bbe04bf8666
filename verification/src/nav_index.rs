//! Indexes over a parsed navigation tree: which positions are navigation
//! targets, the labels and heading levels given to each, and which content
//! positions and section symbols they reach.
//!
//! The tree is read in pre-order (a point, then its descendants, then its
//! later siblings), the order in which the importer meets the entries.
use std::collections::{BTreeMap, BTreeSet};
use vstd::prelude::*;
use crate::native::{NavPointDraft, NavView, nav_views, lemma_nav_views_push, strs};
use crate::heading::label_map_view;
use crate::ion::{IonModel, IonValue, models, field_models, lemma_models_index, lemma_field_models_index};
use crate::native::{NativeFragment, FragmentView, fragment_views};
use crate::nav::{to_u32, FIELD_NAV_TARGET_ID};
use crate::reading::FIELD_CONTENT_FRAGMENT_SYMBOL;
use crate::content::{sat_plus, lemma_sat_plus_twice};
use crate::strset::StringSet;
use crate::text::{trim, lower, trim_str, chars_of, lower_chars, chars_eq, owned};
use crate::value::{field_of, int_field, symbol_field, int_field_of, symbol_field_of, struct_get};

verus! {

broadcast use vstd::laws_cmp::group_laws_cmp;

/// The points of a navigation forest in pre-order.
pub open spec fn preorder(s: Seq<NavView>) -> Seq<NavView>
    decreases s,
{
    if s.len() == 0 {
        Seq::empty()
    } else {
        proof {
            assert(decreases_to!(s => s[s.len() - 1]));
        }
        preorder(s.subrange(0, s.len() - 1)) + seq![s[s.len() - 1]] + preorder(s[s.len() - 1].children)
    }
}

/// Every target of a navigation forest.
pub open spec fn targets_of(s: Seq<NavView>) -> Set<u32> {
    preorder(s).map_values(|p: NavView| p.target).to_set()
}

/// The labels of each target, in pre-order, added to `m`.
pub open spec fn labels_after(m: Map<u32, Seq<Seq<char>>>, flat: Seq<NavView>) -> Map<u32, Seq<Seq<char>>>
    decreases flat.len(),
{
    if flat.len() == 0 {
        m
    } else {
        let before = labels_after(m, flat.drop_last());
        let p = flat.last();
        let prior = if before.contains_key(p.target) { before[p.target] } else { Seq::empty() };
        before.insert(p.target, prior.push(p.label))
    }
}

/// The heading level of each target, the first one met in pre-order, added
/// to `m` where `m` has none.
pub open spec fn levels_after(m: Map<u32, u8>, flat: Seq<NavView>) -> Map<u32, u8>
    decreases flat.len(),
{
    if flat.len() == 0 {
        m
    } else {
        let before = levels_after(m, flat.drop_last());
        let p = flat.last();
        match p.heading_level {
            Some(level) => if before.contains_key(p.target) { before } else { before.insert(p.target, level) },
            None => before,
        }
    }
}

pub proof fn lemma_nav_views_index(s: Seq<NavPointDraft>)
    ensures
        nav_views(s).len() == s.len(),
        forall|i: int| 0 <= i < s.len() ==> #[trigger] nav_views(s)[i] == s[i].nav_view(),
    decreases s.len(),
{
    if s.len() > 0 {
        let t = s.subrange(0, s.len() - 1);
        lemma_nav_views_index(t);
        assert(t.push(s[s.len() - 1]) =~= s);
        lemma_nav_views_push(t, s[s.len() - 1]);
    }
}

proof fn lemma_preorder_step(v: Seq<NavView>, i: int)
    requires
        0 <= i < v.len(),
    ensures
        preorder(v.take(i + 1)) == preorder(v.take(i)) + seq![v[i]] + preorder(v[i].children),
{
    assert(v.take(i + 1).subrange(0, i) =~= v.take(i));
}

proof fn lemma_labels_append(m: Map<u32, Seq<Seq<char>>>, a: Seq<NavView>, b: Seq<NavView>)
    ensures
        labels_after(m, a + b) == labels_after(labels_after(m, a), b),
    decreases b.len(),
{
    if b.len() == 0 {
        assert(a + b =~= a);
    } else {
        lemma_labels_append(m, a, b.drop_last());
        assert((a + b).drop_last() =~= a + b.drop_last());
    }
}

proof fn lemma_levels_append(m: Map<u32, u8>, a: Seq<NavView>, b: Seq<NavView>)
    ensures
        levels_after(m, a + b) == levels_after(levels_after(m, a), b),
    decreases b.len(),
{
    if b.len() == 0 {
        assert(a + b =~= a);
    } else {
        lemma_levels_append(m, a, b.drop_last());
        assert((a + b).drop_last() =~= a + b.drop_last());
    }
}

/// Adds every target of the forest to `output`.
pub fn collect_navigation_targets(points: &Vec<NavPointDraft>, output: &mut BTreeSet<u32>)
    ensures
        final(output)@ == old(output)@ + targets_of(nav_views(points@)),
    decreases points,
{
    let ghost v = nav_views(points@);
    let ghost o0 = output@;
    proof {
        lemma_nav_views_index(points@);
    }
    let mut i: usize = 0;
    while i < points.len()
        invariant
            0 <= i <= points@.len(),
            v == nav_views(points@),
            v.len() == points@.len(),
            forall|k: int| 0 <= k < points@.len() ==> #[trigger] v[k] == points@[k].nav_view(),
            output@ == o0 + targets_of(v.take(i as int)),
        decreases points@.len() - i,
    {
        assert(decreases_to!(points => points@[i as int].children));
        let ghost before = output@;
        output.insert(points[i].target);
        collect_navigation_targets(&points[i].children, output);
        proof {
            lemma_preorder_step(v, i as int);
            assert(v[i as int].children == nav_views(points@[i as int].children@));
            let f = |p: NavView| p.target;
            let a = preorder(v.take(i as int));
            let c = preorder(v[i as int].children);
            assert((a + seq![v[i as int]] + c).map_values(f) =~= a.map_values(f).push(v[i as int].target) + c.map_values(f));
            assert((a.map_values(f).push(v[i as int].target) + c.map_values(f)).to_set()
                =~= a.map_values(f).to_set().insert(v[i as int].target) + c.map_values(f).to_set()) by {
                broadcast use vstd::seq_lib::group_seq_properties;
            }
            assert(output@ =~= o0 + targets_of(v.take(i + 1)));
        }
        i = i + 1;
    }
    assert(v.take(v.len() as int) =~= v);
}

/// Adds the label of every point to the labels of its target, in pre-order.
pub fn collect_navigation_labels(points: &Vec<NavPointDraft>, output: &mut BTreeMap<u32, Vec<String>>)
    ensures
        label_map_view(final(output)@) == labels_after(label_map_view(old(output)@), preorder(nav_views(points@))),
    decreases points,
{
    let ghost v = nav_views(points@);
    let ghost o0 = label_map_view(output@);
    proof {
        lemma_nav_views_index(points@);
    }
    let mut i: usize = 0;
    while i < points.len()
        invariant
            0 <= i <= points@.len(),
            v == nav_views(points@),
            v.len() == points@.len(),
            forall|k: int| 0 <= k < points@.len() ==> #[trigger] v[k] == points@[k].nav_view(),
            label_map_view(output@) == labels_after(o0, preorder(v.take(i as int))),
        decreases points@.len() - i,
    {
        assert(decreases_to!(points => points@[i as int].children));
        let ghost m0 = label_map_view(output@);
        let target = points[i].target;
        let mut labels = match output.remove(&target) {
            Some(existing) => existing,
            None => Vec::new(),
        };
        labels.push(points[i].label.clone());
        output.insert(target, labels);
        let ghost m1 = label_map_view(output@);
        proof {
            let p = v[i as int];
            let prior = if m0.contains_key(p.target) { m0[p.target] } else { Seq::<Seq<char>>::empty() };
            assert(strs(labels@) =~= prior.push(p.label));
            assert(m1 =~= m0.insert(p.target, prior.push(p.label)));
            assert(seq![p].drop_last() =~= Seq::<NavView>::empty());
            assert(labels_after(m0, Seq::<NavView>::empty()) == m0);
            assert(m1 == labels_after(m0, seq![p]));
        }
        collect_navigation_labels(&points[i].children, output);
        proof {
            let p = v[i as int];
            lemma_preorder_step(v, i as int);
            assert(p.children == nav_views(points@[i as int].children@));
            lemma_labels_append(o0, preorder(v.take(i as int)), seq![p]);
            lemma_labels_append(o0, preorder(v.take(i as int)) + seq![p], preorder(p.children));
        }
        i = i + 1;
    }
    assert(v.take(v.len() as int) =~= v);
}

/// Records, for each target, the first heading level met in pre-order.
pub fn collect_navigation_heading_levels(points: &Vec<NavPointDraft>, output: &mut BTreeMap<u32, u8>)
    ensures
        final(output)@ == levels_after(old(output)@, preorder(nav_views(points@))),
    decreases points,
{
    let ghost v = nav_views(points@);
    let ghost o0 = output@;
    proof {
        lemma_nav_views_index(points@);
    }
    let mut i: usize = 0;
    while i < points.len()
        invariant
            0 <= i <= points@.len(),
            v == nav_views(points@),
            v.len() == points@.len(),
            forall|k: int| 0 <= k < points@.len() ==> #[trigger] v[k] == points@[k].nav_view(),
            output@ == levels_after(o0, preorder(v.take(i as int))),
        decreases points@.len() - i,
    {
        assert(decreases_to!(points => points@[i as int].children));
        let ghost m0 = output@;
        if let Some(level) = points[i].heading_level {
            if !output.contains_key(&points[i].target) {
                output.insert(points[i].target, level);
            }
        }
        proof {
            let p = v[i as int];
            assert(seq![p].drop_last() =~= Seq::<NavView>::empty());
            assert(levels_after(m0, Seq::<NavView>::empty()) == m0);
            assert(output@ =~= levels_after(m0, seq![p]));
        }
        collect_navigation_heading_levels(&points[i].children, output);
        proof {
            let p = v[i as int];
            lemma_preorder_step(v, i as int);
            assert(p.children == nav_views(points@[i as int].children@));
            lemma_levels_append(o0, preorder(v.take(i as int)), seq![p]);
            lemma_levels_append(o0, preorder(v.take(i as int)) + seq![p], preorder(p.children));
        }
        i = i + 1;
    }
    assert(v.take(v.len() as int) =~= v);
}

/// The position a content struct carries in `$155`, when it fits `u32`.
pub open spec fn own_position(m: IonModel) -> Option<u32> {
    to_u32(int_field(m, FIELD_NAV_TARGET_ID))
}

fn own_position_of(value: &IonValue) -> (r: Option<u32>)
    ensures
        r == own_position(value@),
{
    match int_field_of(value, FIELD_NAV_TARGET_ID) {
        Some(i) => if i >= 0 && i <= 0xffff_ffff {
            Some(i as u32)
        } else {
            None
        },
        None => None,
    }
}

/// The positions of a content tree (structs and their descendants, lists,
/// annotations) that are navigation targets, added to `out`.
pub open spec fn positions_walk(out: Set<u32>, m: IonModel, targets: Set<u32>) -> Set<u32>
    decreases m,
{
    match m {
        IonModel::Struct(fields) => {
            let here = match own_position(m) {
                Some(p) => if targets.contains(p) { out.insert(p) } else { out },
                None => out,
            };
            positions_walk_fields(here, fields, targets)
        },
        IonModel::List(items) => positions_walk_items(out, items, targets),
        IonModel::SExp(items) => positions_walk_items(out, items, targets),
        IonModel::Annotation { value, .. } => positions_walk(out, *value, targets),
        _ => out,
    }
}

pub open spec fn positions_walk_items(out: Set<u32>, s: Seq<IonModel>, targets: Set<u32>) -> Set<u32>
    decreases s,
{
    if s.len() == 0 {
        out
    } else {
        positions_walk(positions_walk_items(out, s.drop_last(), targets), s.last(), targets)
    }
}

pub open spec fn positions_walk_fields(out: Set<u32>, s: Seq<(u64, IonModel)>, targets: Set<u32>) -> Set<u32>
    decreases s,
{
    if s.len() == 0 {
        out
    } else {
        proof {
            assert(decreases_to!(s => s[s.len() - 1].1));
        }
        positions_walk(positions_walk_fields(out, s.drop_last(), targets), s.last().1, targets)
    }
}

/// Adds the positions of a content tree that are navigation targets.
pub fn collect_navigation_positions(value: &IonValue, navigation_targets: &BTreeSet<u32>, output: &mut BTreeSet<u32>)
    ensures
        final(output)@ == positions_walk(old(output)@, value@, navigation_targets@),
    decreases value,
{
    match value {
        IonValue::Struct(fields) => {
            match own_position_of(value) {
                Some(p) => {
                    if navigation_targets.contains(&p) {
                        output.insert(p);
                    }
                },
                None => {},
            }
            proof {
                lemma_field_models_index(fields@);
            }
            positions_in_fields(fields, navigation_targets, output);
        },
        IonValue::List(items) => positions_in_items(items, navigation_targets, output),
        IonValue::SExp(items) => positions_in_items(items, navigation_targets, output),
        IonValue::Annotation { value: inner, .. } => collect_navigation_positions(inner, navigation_targets, output),
        _ => {},
    }
}

fn positions_in_items(items: &Vec<IonValue>, navigation_targets: &BTreeSet<u32>, output: &mut BTreeSet<u32>)
    ensures
        final(output)@ == positions_walk_items(old(output)@, models(items@), navigation_targets@),
    decreases items,
{
    let ghost ms = models(items@);
    let ghost o0 = output@;
    proof {
        lemma_models_index(items@);
    }
    let mut i: usize = 0;
    while i < items.len()
        invariant
            0 <= i <= items@.len(),
            ms == models(items@),
            ms.len() == items@.len(),
            forall|k: int| 0 <= k < items@.len() ==> #[trigger] ms[k] == items@[k]@,
            output@ == positions_walk_items(o0, ms.subrange(0, i as int), navigation_targets@),
        decreases items@.len() - i,
    {
        assert(decreases_to!(items => items@[i as int]));
        assert(ms.subrange(0, i + 1).drop_last() =~= ms.subrange(0, i as int));
        collect_navigation_positions(&items[i], navigation_targets, output);
        i = i + 1;
    }
    assert(ms.subrange(0, ms.len() as int) =~= ms);
}

fn positions_in_fields(fields: &Vec<(u64, IonValue)>, navigation_targets: &BTreeSet<u32>, output: &mut BTreeSet<u32>)
    ensures
        final(output)@ == positions_walk_fields(old(output)@, field_models(fields@), navigation_targets@),
    decreases fields,
{
    let ghost fs = field_models(fields@);
    let ghost o0 = output@;
    proof {
        lemma_field_models_index(fields@);
    }
    let mut i: usize = 0;
    while i < fields.len()
        invariant
            0 <= i <= fields@.len(),
            fs == field_models(fields@),
            fs.len() == fields@.len(),
            forall|k: int| 0 <= k < fields@.len() ==> #[trigger] fs[k] == (fields@[k].0, fields@[k].1@),
            output@ == positions_walk_fields(o0, fs.subrange(0, i as int), navigation_targets@),
        decreases fields@.len() - i,
    {
        assert(decreases_to!(fields => fields@[i as int].1));
        assert(fs.subrange(0, i + 1).drop_last() =~= fs.subrange(0, i as int));
        collect_navigation_positions(&fields[i].1, navigation_targets, output);
        i = i + 1;
    }
    assert(fs.subrange(0, fs.len() as int) =~= fs);
}

pub const SECTION_FRAGMENT_TYPE: u32 = 260;
pub const FIELD_SECTION_ENTRIES: u64 = 141;

/// The content symbol (`$176`) of a section entry whose position is a
/// navigation target.
pub open spec fn entry_symbol(e: IonModel, targets: Set<u32>) -> Option<u64> {
    match own_position(e) {
        Some(t) => if targets.contains(t) { symbol_field(e, FIELD_CONTENT_FRAGMENT_SYMBOL) } else { None },
        None => None,
    }
}

pub open spec fn entry_symbols(out: Set<u64>, entries: Seq<IonModel>, targets: Set<u32>) -> Set<u64>
    decreases entries.len(),
{
    if entries.len() == 0 {
        out
    } else {
        let before = entry_symbols(out, entries.drop_last(), targets);
        match entry_symbol(entries.last(), targets) {
            Some(s) => before.insert(s),
            None => before,
        }
    }
}

/// The content symbols of the section entries (`$141` lists of `$260`
/// fragments) whose positions are navigation targets.
pub open spec fn section_symbols(fs: Seq<FragmentView>, targets: Set<u32>) -> Set<u64>
    decreases fs.len(),
{
    if fs.len() == 0 {
        Set::empty()
    } else {
        let before = section_symbols(fs.drop_last(), targets);
        let f = fs.last();
        if f.fragment_type == SECTION_FRAGMENT_TYPE {
            match field_of(f.value, FIELD_SECTION_ENTRIES) {
                Some(IonModel::List(entries)) => entry_symbols(before, entries, targets),
                _ => before,
            }
        } else {
            before
        }
    }
}

fn add_entry_symbols(entries: &Vec<IonValue>, navigation_targets: &BTreeSet<u32>, symbols: &mut BTreeSet<u64>)
    ensures
        final(symbols)@ == entry_symbols(old(symbols)@, models(entries@), navigation_targets@),
{
    let ghost ms = models(entries@);
    let ghost s0 = symbols@;
    proof {
        lemma_models_index(entries@);
    }
    let mut i: usize = 0;
    while i < entries.len()
        invariant
            0 <= i <= entries@.len(),
            ms == models(entries@),
            ms.len() == entries@.len(),
            forall|k: int| 0 <= k < entries@.len() ==> #[trigger] ms[k] == entries@[k]@,
            symbols@ == entry_symbols(s0, ms.take(i as int), navigation_targets@),
        decreases entries@.len() - i,
    {
        assert(ms.take(i + 1).drop_last() =~= ms.take(i as int));
        let entry = &entries[i];
        match own_position_of(entry) {
            Some(t) => {
                if navigation_targets.contains(&t) {
                    match symbol_field_of(entry, FIELD_CONTENT_FRAGMENT_SYMBOL) {
                        Some(symbol) => {
                            symbols.insert(symbol);
                        },
                        None => {},
                    }
                }
            },
            None => {},
        }
        i = i + 1;
    }
    assert(ms.take(ms.len() as int) =~= ms);
}

/// The content symbols of the sections whose entries are navigation targets.
pub fn collect_navigation_section_symbols(fragments: &Vec<NativeFragment>, navigation_targets: &BTreeSet<u32>) -> (r: BTreeSet<u64>)
    ensures
        r@ == section_symbols(fragment_views(fragments@), navigation_targets@),
{
    let ghost fs = fragment_views(fragments@);
    let mut symbols: BTreeSet<u64> = BTreeSet::new();
    let mut i: usize = 0;
    while i < fragments.len()
        invariant
            0 <= i <= fragments@.len(),
            fs == fragment_views(fragments@),
            fs.len() == fragments@.len(),
            symbols@ == section_symbols(fs.take(i as int), navigation_targets@),
        decreases fragments@.len() - i,
    {
        proof {
            assert(fs.take(i + 1).drop_last() =~= fs.take(i as int));
            assert(fs[i as int] == fragments@[i as int]@);
        }
        let fragment = &fragments[i];
        if fragment.fragment_type == SECTION_FRAGMENT_TYPE {
            match struct_get(&fragment.value, FIELD_SECTION_ENTRIES) {
                Some(IonValue::List(entries)) => add_entry_symbols(entries, navigation_targets, &mut symbols),
                _ => {},
            }
        }
        i = i + 1;
    }
    assert(fs.take(fs.len() as int) =~= fs);
    symbols
}

/// The navigation target a text run stands at: its own position, else its
/// parent's, whichever is a navigation target.
pub open spec fn navigation_position_spec(position: Option<u32>, parent_position: Option<u32>, targets: Set<u32>) -> Option<u32> {
    match position {
        Some(p) if targets.contains(p) => Some(p),
        _ => match parent_position {
            Some(p) if targets.contains(p) => Some(p),
            _ => None,
        },
    }
}

pub fn kfx_navigation_position(position: Option<u32>, parent_position: Option<u32>, navigation_targets: &BTreeSet<u32>) -> (r: Option<u32>)
    ensures
        r == navigation_position_spec(position, parent_position, navigation_targets@),
{
    if let Some(p) = position {
        if navigation_targets.contains(&p) {
            return Some(p);
        }
    }
    if let Some(p) = parent_position {
        if navigation_targets.contains(&p) {
            return Some(p);
        }
    }
    None
}

/// Where a navigation target lands in the book: a document, a node in it,
/// and the href of the anchor there.
#[derive(Clone, Debug, PartialEq, Eq)]
pub struct TargetLocation {
    pub document: u32,
    pub node: u32,
    pub href: String,
    pub anchor_name: String,
}

/// The locations after recording that `target` lands at `l`: a target seen
/// at two different nodes has no location at all.
pub open spec fn location_inserted<K>(m: Map<K, Option<TargetLocation>>, target: K, l: TargetLocation) -> Map<K, Option<TargetLocation>> {
    if !m.contains_key(target) {
        m.insert(target, Some(l))
    } else {
        match m[target] {
            Some(e) => if e.document == l.document && e.node == l.node { m } else { m.insert(target, None) },
            None => m,
        }
    }
}

/// Records that `target` lands at `location`; a target reused at another
/// node becomes ambiguous and points nowhere.
pub fn insert_target_location<K: Ord>(
    locations: &mut BTreeMap<K, Option<TargetLocation>>,
    target: K,
    location: TargetLocation,
)
    requires
        vstd::laws_cmp::obeys_cmp::<K>(),
    ensures
        final(locations)@ == location_inserted(old(locations)@, target, location),
{
    broadcast use vstd::std_specs::btree::group_btree_axioms;
    let ambiguous = match locations.get(&target) {
        None => {
            locations.insert(target, Some(location));
            return;
        },
        Some(Some(existing)) => !(existing.document == location.document && existing.node == location.node),
        Some(None) => false,
    };
    if ambiguous {
        locations.insert(target, None);
    }
}

/// Marks `target` as pointing nowhere.
pub fn mark_target_location_ambiguous<K: Ord>(locations: &mut BTreeMap<K, Option<TargetLocation>>, target: K)
    requires
        vstd::laws_cmp::obeys_cmp::<K>(),
    ensures
        final(locations)@ == old(locations)@.insert(target, None),
{
    locations.insert(target, None);
}

/// A resolved navigation point: its label, the href it leads to, and its
/// children.
#[derive(Debug)]
pub struct NavPoint {
    pub label: String,
    pub href: String,
    pub children: Vec<NavPoint>,
}

pub struct NavPointView {
    pub label: Seq<char>,
    pub href: Seq<char>,
    pub children: Seq<NavPointView>,
}

impl NavPoint {
    pub open spec fn point_view(self) -> NavPointView
        decreases self,
    {
        NavPointView { label: self.label@, href: self.href@, children: point_views(self.children@) }
    }
}

pub open spec fn point_views(s: Seq<NavPoint>) -> Seq<NavPointView>
    decreases s,
{
    if s.len() == 0 {
        Seq::empty()
    } else {
        point_views(s.subrange(0, s.len() - 1)).push(s[s.len() - 1].point_view())
    }
}

pub proof fn lemma_point_views_index(s: Seq<NavPoint>)
    ensures
        point_views(s).len() == s.len(),
        forall|i: int| 0 <= i < s.len() ==> #[trigger] point_views(s)[i] == s[i].point_view(),
    decreases s.len(),
{
    if s.len() > 0 {
        lemma_point_views_index(s.subrange(0, s.len() - 1));
    }
}

proof fn lemma_point_views_push(s: Seq<NavPoint>, p: NavPoint)
    ensures
        point_views(s.push(p)) == point_views(s).push(p.point_view()),
{
    assert(s.push(p).subrange(0, s.len() as int) =~= s);
}

proof fn lemma_point_views_append(s: Seq<NavPoint>, t: Seq<NavPoint>)
    ensures
        point_views(s + t) == point_views(s) + point_views(t),
    decreases t.len(),
{
    if t.len() == 0 {
        assert(s + t =~= s);
    } else {
        let u = t.subrange(0, t.len() - 1);
        lemma_point_views_append(s, u);
        assert((s + t).subrange(0, (s + t).len() - 1) =~= s + u);
        assert(point_views(t) == point_views(u).push(t[t.len() - 1].point_view()));
    }
}

/// The location of a target: by content position, else by section, else
/// by entity; an ambiguous entry stops the search with no location.
pub open spec fn nav_location(
    t: u32,
    positions: Map<u32, Option<TargetLocation>>,
    sections: Map<u32, Option<TargetLocation>>,
    entities: Map<u32, Option<TargetLocation>>,
) -> Option<TargetLocation> {
    if positions.contains_key(t) {
        positions[t]
    } else if sections.contains_key(t) {
        sections[t]
    } else if entities.contains_key(t) {
        entities[t]
    } else {
        None
    }
}

/// The resolved forest and how many points did not resolve. A point that
/// does not resolve is dropped and its resolved children take its place.
pub open spec fn resolved(
    s: Seq<NavView>,
    positions: Map<u32, Option<TargetLocation>>,
    sections: Map<u32, Option<TargetLocation>>,
    entities: Map<u32, Option<TargetLocation>>,
) -> (Seq<NavPointView>, nat)
    decreases s,
{
    if s.len() == 0 {
        (Seq::empty(), 0)
    } else {
        proof {
            assert(decreases_to!(s => s[s.len() - 1]));
        }
        let prev = resolved(s.subrange(0, s.len() - 1), positions, sections, entities);
        let p = s[s.len() - 1];
        let kids = resolved(p.children, positions, sections, entities);
        match nav_location(p.target, positions, sections, entities) {
            Some(l) => (prev.0.push(NavPointView { label: p.label, href: l.href@, children: kids.0 }), prev.1 + kids.1),
            None => (prev.0 + kids.0, prev.1 + kids.1 + 1),
        }
    }
}

fn location_of<'a>(t: u32, map: &'a BTreeMap<u32, Option<TargetLocation>>) -> (r: Option<&'a Option<TargetLocation>>)
    ensures
        match r {
            Some(l) => map@.contains_key(t) && map@[t] == *l,
            None => !map@.contains_key(t),
        },
{
    broadcast use vstd::std_specs::btree::group_btree_axioms;
    map.get(&t)
}

/// Resolves each navigation point to the href of its location; points
/// without one are counted in `unresolved` (saturating) and replaced by their
/// resolved children, in document order.
pub fn resolve_navigation(
    points: &Vec<NavPointDraft>,
    positions: &BTreeMap<u32, Option<TargetLocation>>,
    sections: &BTreeMap<u32, Option<TargetLocation>>,
    entities: &BTreeMap<u32, Option<TargetLocation>>,
    unresolved: &mut usize,
) -> (r: Vec<NavPoint>)
    ensures
        point_views(r@) == resolved(nav_views(points@), positions@, sections@, entities@).0,
        *final(unresolved) == sat_plus(*old(unresolved), resolved(nav_views(points@), positions@, sections@, entities@).1),
    decreases points,
{
    let ghost v = nav_views(points@);
    let ghost u0 = *unresolved;
    proof {
        lemma_nav_views_index(points@);
    }
    let mut out: Vec<NavPoint> = Vec::new();
    let mut i: usize = 0;
    while i < points.len()
        invariant
            0 <= i <= points@.len(),
            v == nav_views(points@),
            v.len() == points@.len(),
            forall|k: int| 0 <= k < points@.len() ==> #[trigger] v[k] == points@[k].nav_view(),
            point_views(out@) == resolved(v.take(i as int), positions@, sections@, entities@).0,
            *unresolved == sat_plus(u0, resolved(v.take(i as int), positions@, sections@, entities@).1),
        decreases points@.len() - i,
    {
        assert(decreases_to!(points => points@[i as int].children));
        let ghost before = *unresolved;
        let ghost prev = resolved(v.take(i as int), positions@, sections@, entities@);
        let mut children = resolve_navigation(&points[i].children, positions, sections, entities, unresolved);
        let ghost p = v[i as int];
        let ghost kids = resolved(p.children, positions@, sections@, entities@);
        proof {
            assert(p.children == nav_views(points@[i as int].children@));
            assert(v.take(i + 1).subrange(0, i as int) =~= v.take(i as int));
            lemma_sat_plus_twice(u0, prev.1, kids.1);
        }
        let t = points[i].target;
        let found = match location_of(t, positions) {
            Some(l) => l,
            None => match location_of(t, sections) {
                Some(l) => l,
                None => match location_of(t, entities) {
                    Some(l) => l,
                    None => &None,
                },
            },
        };
        match found {
            Some(location) => {
                let ghost before_out = out@;
                out.push(NavPoint {
                    label: owned(points[i].label.as_str()),
                    href: owned(location.href.as_str()),
                    children,
                });
                proof {
                    lemma_point_views_push(before_out, out@[out@.len() - 1]);
                    assert(out@ =~= before_out.push(out@[out@.len() - 1]));
                }
            },
            None => {
                let ghost before_out = out@;
                let ghost kid_points = children@;
                out.append(&mut children);
                *unresolved = if *unresolved < usize::MAX { *unresolved + 1 } else { usize::MAX };
                proof {
                    assert(out@ =~= before_out + kid_points);
                    lemma_point_views_append(before_out, kid_points);
                    lemma_sat_plus_twice(u0, prev.1 + kids.1, 1);
                }
            },
        }
        i = i + 1;
    }
    assert(v.take(v.len() as int) =~= v);
    out
}

/// The points of a resolved forest in pre-order.
pub open spec fn points_preorder(s: Seq<NavPointView>) -> Seq<NavPointView>
    decreases s,
{
    if s.len() == 0 {
        Seq::empty()
    } else {
        proof {
            assert(decreases_to!(s => s[s.len() - 1]));
        }
        points_preorder(s.subrange(0, s.len() - 1)) + seq![s[s.len() - 1]] + points_preorder(s[s.len() - 1].children)
    }
}

/// A label read as a word: trimmed and lowered (ASCII).
pub open spec fn folded_label(label: Seq<char>) -> Seq<char> {
    lower(trim(label))
}

pub open spec fn ends_with(s: Seq<char>, suffix: Seq<char>) -> bool {
    s.len() >= suffix.len() && s.subrange(s.len() - suffix.len(), s.len() as int) == suffix
}

/// The hrefs of the points not labelled `start`, added to `out`.
pub open spec fn destinations_after(out: Set<Seq<char>>, flat: Seq<NavPointView>) -> Set<Seq<char>>
    decreases flat.len(),
{
    if flat.len() == 0 {
        out
    } else {
        let before = destinations_after(out, flat.drop_last());
        if folded_label(flat.last().label) != "start"@ { before.insert(flat.last().href) } else { before }
    }
}

/// Entries the reader produces itself: a `table of contents` title, a
/// `...nav-unit` label, or a `start` entry whose destination another entry
/// already reaches.
pub open spec fn synthetic_point(p: NavPointView, destinations: Set<Seq<char>>) -> bool {
    let l = folded_label(p.label);
    l == "table of contents"@ || ends_with(l, "nav-unit"@) || (l == "start"@ && destinations.contains(p.href))
}

/// The key under which a point counts as a repeat: trimmed label and href.
pub open spec fn point_key(p: NavPointView) -> (Seq<char>, Seq<char>) {
    (trim(p.label), p.href)
}

/// The filtered forest and the keys seen once it is done. Synthetic points
/// go with their subtrees; a repeat of a key seen earlier in pre-order goes
/// too.
pub open spec fn filtered(
    s: Seq<NavPointView>,
    seen: Set<(Seq<char>, Seq<char>)>,
    destinations: Set<Seq<char>>,
) -> (Seq<NavPointView>, Set<(Seq<char>, Seq<char>)>)
    decreases s,
{
    if s.len() == 0 {
        (Seq::empty(), seen)
    } else {
        proof {
            assert(decreases_to!(s => s[s.len() - 1]));
        }
        let prev = filtered(s.subrange(0, s.len() - 1), seen, destinations);
        let p = s[s.len() - 1];
        if synthetic_point(p, destinations) || prev.1.contains(point_key(p)) {
            prev
        } else {
            let kids = filtered(p.children, prev.1.insert(point_key(p)), destinations);
            (prev.0.push(NavPointView { label: p.label, href: p.href, children: kids.0 }), kids.1)
        }
    }
}

/// The navigation a reader should see.
pub open spec fn filtered_navigation(s: Seq<NavPointView>) -> Seq<NavPointView> {
    filtered(s, Set::empty(), destinations_after(Set::empty(), points_preorder(s))).0
}

proof fn lemma_points_preorder_step(v: Seq<NavPointView>, i: int)
    requires
        0 <= i < v.len(),
    ensures
        points_preorder(v.take(i + 1)) == points_preorder(v.take(i)) + seq![v[i]] + points_preorder(v[i].children),
{
    assert(v.take(i + 1).subrange(0, i) =~= v.take(i));
}

proof fn lemma_destinations_append(m: Set<Seq<char>>, a: Seq<NavPointView>, b: Seq<NavPointView>)
    ensures
        destinations_after(m, a + b) == destinations_after(destinations_after(m, a), b),
    decreases b.len(),
{
    if b.len() == 0 {
        assert(a + b =~= a);
    } else {
        lemma_destinations_append(m, a, b.drop_last());
        assert((a + b).drop_last() =~= a + b.drop_last());
    }
}

fn folded(label: &str) -> (r: Vec<char>)
    ensures
        r@ == folded_label(label@),
{
    let t = trim_str(label);
    let c = chars_of(t.as_str());
    lower_chars(c.as_slice())
}

fn is_word(s: &Vec<char>, lit: &str) -> (r: bool)
    ensures
        r == (s@ == lit@),
{
    let l = chars_of(lit);
    chars_eq(s.as_slice(), l.as_slice())
}

pub(crate) fn chars_end_with(s: &Vec<char>, suffix: &str) -> (r: bool)
    ensures
        r == ends_with(s@, suffix@),
{
    let x = chars_of(suffix);
    if s.len() < x.len() {
        return false;
    }
    let n = s.len();
    let start = n - x.len();
    let mut i: usize = 0;
    while i < x.len()
        invariant
            0 <= i <= x@.len(),
            x@ == suffix@,
            start == s@.len() - x@.len(),
            start + x@.len() == n,
            n == s@.len(),
            forall|k: int| 0 <= k < i ==> s@[start + k] == x@[k],
        decreases x@.len() - i,
    {
        if s[start + i] != x[i] {
            assert(s@.subrange(start as int, s@.len() as int)[i as int] != x@[i as int]);
            return false;
        }
        i = i + 1;
    }
    assert(s@.subrange(start as int, s@.len() as int) =~= x@);
    true
}

fn collect_non_start_destinations(points: &Vec<NavPoint>, output: &mut StringSet)
    requires
        old(output).wf(),
    ensures
        final(output).wf(),
        final(output).set() == destinations_after(old(output).set(), points_preorder(point_views(points@))),
    decreases points,
{
    let ghost v = point_views(points@);
    let ghost o0 = output.set();
    proof {
        lemma_point_views_index(points@);
    }
    let mut i: usize = 0;
    while i < points.len()
        invariant
            0 <= i <= points@.len(),
            v == point_views(points@),
            v.len() == points@.len(),
            forall|k: int| 0 <= k < points@.len() ==> #[trigger] v[k] == points@[k].point_view(),
            output.wf(),
            output.set() == destinations_after(o0, points_preorder(v.take(i as int))),
        decreases points@.len() - i,
    {
        assert(decreases_to!(points => points@[i as int].children));
        let ghost m0 = output.set();
        let label = folded(points[i].label.as_str());
        if !is_word(&label, "start") {
            output.insert_str(points[i].href.as_str());
        }
        proof {
            let p = v[i as int];
            assert(seq![p].drop_last() =~= Seq::<NavPointView>::empty());
            assert(destinations_after(m0, Seq::<NavPointView>::empty()) == m0);
            assert(output.set() == destinations_after(m0, seq![p]));
        }
        collect_non_start_destinations(&points[i].children, output);
        proof {
            let p = v[i as int];
            lemma_points_preorder_step(v, i as int);
            assert(p.children == point_views(points@[i as int].children@));
            lemma_destinations_append(o0, points_preorder(v.take(i as int)), seq![p]);
            lemma_destinations_append(o0, points_preorder(v.take(i as int)) + seq![p], points_preorder(p.children));
        }
        i = i + 1;
    }
    assert(v.take(v.len() as int) =~= v);
}

pub open spec fn key_views(s: Seq<(String, String)>) -> Set<(Seq<char>, Seq<char>)> {
    s.map_values(|k: (String, String)| (k.0@, k.1@)).to_set()
}

fn seen_contains(seen: &Vec<(String, String)>, label: &str, href: &str) -> (r: bool)
    ensures
        r == key_views(seen@).contains((label@, href@)),
{
    let ghost ks = seen@.map_values(|k: (String, String)| (k.0@, k.1@));
    let mut i: usize = 0;
    while i < seen.len()
        invariant
            0 <= i <= seen@.len(),
            ks == seen@.map_values(|k: (String, String)| (k.0@, k.1@)),
            forall|k: int| 0 <= k < i ==> ks[k] != (label@, href@),
        decreases seen@.len() - i,
    {
        let a = chars_of(seen[i].0.as_str());
        let b = chars_of(label);
        let c = chars_of(seen[i].1.as_str());
        let d = chars_of(href);
        if chars_eq(a.as_slice(), b.as_slice()) && chars_eq(c.as_slice(), d.as_slice()) {
            assert(ks[i as int] == (label@, href@));
            assert(ks.contains((label@, href@)));
            return true;
        }
        i = i + 1;
    }
    proof {
        if ks.to_set().contains((label@, href@)) {
            let w = choose|w: int| 0 <= w < ks.len() && ks[w] == (label@, href@);
            assert(ks[w] != (label@, href@));
        }
    }
    false
}

fn filter_points(points: &Vec<NavPoint>, seen: &mut Vec<(String, String)>, destinations: &StringSet) -> (r: Vec<NavPoint>)
    requires
        destinations.wf(),
    ensures
        point_views(r@) == filtered(point_views(points@), key_views(old(seen)@), destinations.set()).0,
        key_views(final(seen)@) == filtered(point_views(points@), key_views(old(seen)@), destinations.set()).1,
    decreases points,
{
    let ghost v = point_views(points@);
    let ghost s0 = key_views(seen@);
    let ghost ds = destinations.set();
    proof {
        lemma_point_views_index(points@);
    }
    let mut out: Vec<NavPoint> = Vec::new();
    let mut i: usize = 0;
    while i < points.len()
        invariant
            0 <= i <= points@.len(),
            v == point_views(points@),
            v.len() == points@.len(),
            forall|k: int| 0 <= k < points@.len() ==> #[trigger] v[k] == points@[k].point_view(),
            destinations.wf(),
            ds == destinations.set(),
            point_views(out@) == filtered(v.take(i as int), s0, ds).0,
            key_views(seen@) == filtered(v.take(i as int), s0, ds).1,
        decreases points@.len() - i,
    {
        assert(decreases_to!(points => points@[i as int].children));
        let ghost p = v[i as int];
        proof {
            assert(v.take(i + 1).subrange(0, i as int) =~= v.take(i as int));
            assert(v.take(i + 1)[i as int] == p);
        }
        let point = &points[i];
        let label = folded(point.label.as_str());
        let synthetic = is_word(&label, "table of contents") || chars_end_with(&label, "nav-unit")
            || (is_word(&label, "start") && destinations.contains(point.href.as_str()));
        if !synthetic {
            let key = trim_str(point.label.as_str());
            if !seen_contains(seen, key.as_str(), point.href.as_str()) {
                let ghost seen_before = seen@;
                seen.push((key, owned(point.href.as_str())));
                proof {
                    let f = |k: (String, String)| (k.0@, k.1@);
                    assert(seen@.map_values(f) =~= seen_before.map_values(f).push(point_key(p)));
                    assert(seen@.map_values(f).to_set() =~= seen_before.map_values(f).to_set().insert(point_key(p))) by {
                        broadcast use vstd::seq_lib::group_seq_properties;
                    }
                }
                let children = filter_points(&point.children, seen, destinations);
                let ghost before_out = out@;
                out.push(NavPoint { label: owned(point.label.as_str()), href: owned(point.href.as_str()), children });
                proof {
                    assert(p.children == point_views(points@[i as int].children@));
                    lemma_point_views_push(before_out, out@[out@.len() - 1]);
                    assert(out@ =~= before_out.push(out@[out@.len() - 1]));
                }
            }
        }
        i = i + 1;
    }
    assert(v.take(v.len() as int) =~= v);
    out
}

/// The navigation a reader should see: synthetic entries (with their
/// subtrees) and repeats of an earlier label and destination are removed.
pub fn filter_kfx_navigation(points: Vec<NavPoint>) -> (r: Vec<NavPoint>)
    ensures
        point_views(r@) == filtered_navigation(point_views(points@)),
{
    let mut destinations = StringSet::new();
    assert(destinations.set() =~= Set::<Seq<char>>::empty());
    collect_non_start_destinations(&points, &mut destinations);
    let mut seen: Vec<(String, String)> = Vec::new();
    proof {
        assert(key_views(seen@) =~= Set::<(Seq<char>, Seq<char>)>::empty());
    }
    filter_points(&points, &mut seen, &destinations)
}

/// How many points a navigation point holds, itself included.
pub open spec fn point_count(p: NavPointView) -> nat {
    1 + points_preorder(p.children).len()
}

/// Counts a point and all its descendants.
pub fn count_navigation_points(point: &NavPoint) -> (r: usize)
    requires
        point_count(point.point_view()) <= usize::MAX,
    ensures
        r == point_count(point.point_view()),
    decreases point,
{
    let ghost v = point_views(point.children@);
    proof {
        lemma_point_views_index(point.children@);
    }
    let mut total: usize = 1;
    let mut i: usize = 0;
    while i < point.children.len()
        invariant
            0 <= i <= point.children@.len(),
            v == point_views(point.children@),
            v == point.point_view().children,
            v.len() == point.children@.len(),
            forall|k: int| 0 <= k < point.children@.len() ==> #[trigger] v[k] == point.children@[k].point_view(),
            1 + points_preorder(v).len() <= usize::MAX,
            total == 1 + points_preorder(v.take(i as int)).len(),
        decreases point.children@.len() - i,
    {
        assert(decreases_to!(point => point.children@[i as int]));
        proof {
            lemma_points_preorder_step(v, i as int);
            lemma_preorder_prefix_len(v, i + 1);
        }
        let n = count_navigation_points(&point.children[i]);
        total = total + n;
        i = i + 1;
    }
    assert(v.take(v.len() as int) =~= v);
    total
}

proof fn lemma_preorder_prefix_len(v: Seq<NavPointView>, k: int)
    requires
        0 <= k <= v.len(),
    ensures
        points_preorder(v.take(k)).len() <= points_preorder(v).len(),
    decreases v.len() - k,
{
    if k < v.len() {
        lemma_preorder_prefix_len(v, k + 1);
        lemma_points_preorder_step(v, k);
    } else {
        assert(v.take(k) =~= v);
    }
}

/// The keys of `flat` are pairwise distinct, all new to `seen`, and all in
/// `after`.
pub open spec fn keys_fresh(flat: Seq<NavPointView>, seen: Set<(Seq<char>, Seq<char>)>, after: Set<(Seq<char>, Seq<char>)>) -> bool {
    &&& forall|i: int| 0 <= i < flat.len() ==> after.contains(#[trigger] point_key(flat[i])) && !seen.contains(point_key(flat[i]))
    &&& forall|i: int, j: int| 0 <= i < j < flat.len() ==> #[trigger] point_key(flat[i]) != #[trigger] point_key(flat[j])
}

proof fn lemma_filtered_fresh(s: Seq<NavPointView>, seen: Set<(Seq<char>, Seq<char>)>, d: Set<Seq<char>>)
    ensures
        seen.subset_of(filtered(s, seen, d).1),
        keys_fresh(points_preorder(filtered(s, seen, d).0), seen, filtered(s, seen, d).1),
        forall|i: int| 0 <= i < points_preorder(filtered(s, seen, d).0).len()
            ==> !synthetic_point(#[trigger] points_preorder(filtered(s, seen, d).0)[i], d),
    decreases s,
{
    if s.len() > 0 {
        assert(decreases_to!(s => s[s.len() - 1]));
        let t = s.subrange(0, s.len() - 1);
        let p = s[s.len() - 1];
        lemma_filtered_fresh(t, seen, d);
        let prev = filtered(t, seen, d);
        if !(synthetic_point(p, d) || prev.1.contains(point_key(p))) {
            let k = point_key(p);
            let s1 = prev.1.insert(k);
            lemma_filtered_fresh(p.children, s1, d);
            let kids = filtered(p.children, s1, d);
            let q = NavPointView { label: p.label, href: p.href, children: kids.0 };
            let out = prev.0.push(q);
            assert(out.subrange(0, out.len() - 1) =~= prev.0);
            let a = points_preorder(prev.0);
            let c = points_preorder(kids.0);
            let all = a + seq![q] + c;
            assert(points_preorder(out) == all);
            assert(point_key(q) == k);
            assert forall|i: int| 0 <= i < all.len() implies kids.1.contains(#[trigger] point_key(all[i])) && !seen.contains(point_key(all[i]))
                && !synthetic_point(all[i], d) by {
                if i < a.len() {
                    assert(all[i] == a[i]);
                } else if i == a.len() {
                    assert(all[i] == q);
                } else {
                    assert(all[i] == c[i - a.len() - 1]);
                }
            }
            assert forall|i: int, j: int| 0 <= i < j < all.len() implies #[trigger] point_key(all[i]) != #[trigger] point_key(all[j]) by {
                if j < a.len() {
                    assert(all[i] == a[i] && all[j] == a[j]);
                } else if j == a.len() {
                    assert(all[i] == a[i] && all[j] == q);
                } else if i < a.len() {
                    assert(all[i] == a[i] && all[j] == c[j - a.len() - 1]);
                    assert(prev.1.contains(point_key(a[i])));
                } else if i == a.len() {
                    assert(all[i] == q && all[j] == c[j - a.len() - 1]);
                } else {
                    assert(all[i] == c[i - a.len() - 1] && all[j] == c[j - a.len() - 1]);
                }
            }
        }
    }
}

/// The filtered navigation never shows two points (anywhere in the tree)
/// with the same trimmed label and the same destination, and shows no
/// `table of contents` or `...nav-unit` entry.
pub proof fn lemma_filtered_navigation_shows_no_repeats_or_synthetic_entries(s: Seq<NavPointView>)
    ensures
        forall|i: int| 0 <= i < points_preorder(filtered_navigation(s)).len() ==> {
            let l = folded_label(#[trigger] points_preorder(filtered_navigation(s))[i].label);
            l != "table of contents"@ && !ends_with(l, "nav-unit"@)
        },
        forall|i: int, j: int| 0 <= i < j < points_preorder(filtered_navigation(s)).len() ==>
            #[trigger] point_key(points_preorder(filtered_navigation(s))[i])
                != #[trigger] point_key(points_preorder(filtered_navigation(s))[j]),
{
    lemma_filtered_fresh(s, Set::empty(), destinations_after(Set::empty(), points_preorder(s)));
}

} // verus!
