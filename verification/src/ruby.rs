//! Ruby (furigana) annotations.
//!
//! `$756` fragments hold the ruby texts of a container, each under a
//! numeric id (`$758`); a fragment is known by its entity id and by the
//! symbol it declares in `$757`. A text run's style events (`$142`) name a
//! ruby fragment and an id, for the event's range or for each range listed
//! in `$759`.
use std::collections::BTreeMap;
use vstd::prelude::*;
use crate::content::{ruby_content_text, ruby_text_spec};
use crate::ion::{IonModel, IonValue, models, lemma_models_index};
use crate::links::{FIELD_TEXT_STYLE_EVENTS, ruby_range, ruby_range_spec};
use crate::native::{NativeModel, FragmentView, fragment_views, table_views};
use crate::decode::FIELD_TEXT_VALUES;
use crate::text::owned;
use crate::text_events::{KFX_RUBY_CONTENT_FRAGMENT_TYPE, FIELD_RUBY_ID};
use crate::value::{field_of, int_field, items_of, symbol_field, int_field_of, symbol_field_of, struct_get, list_items};

verus! {

broadcast use vstd::laws_cmp::group_laws_cmp;

pub const FIELD_RUBY_FRAGMENT_SYMBOL: u64 = 757;
pub const FIELD_RUBY_ID_LIST: u64 = 759;

/// Ruby texts by (container index, fragment key), then by ruby id.
pub open spec fn ruby_map_view(m: Map<(usize, u64), BTreeMap<u64, String>>) -> Map<(usize, u64), Map<u64, Seq<char>>> {
    m.map_values(|v: BTreeMap<u64, String>| v@.map_values(|s: String| s@))
}

/// A non-negative integer read as `u64`.
pub open spec fn to_u64(i: Option<i64>) -> Option<u64> {
    match i {
        Some(i) => if i >= 0 { Some(i as u64) } else { None },
        None => None,
    }
}

/// The texts of the ruby entries, by id; a later entry with the same id
/// wins.
pub open spec fn ruby_values(entries: Seq<IonModel>, tables: Map<u32, Seq<Seq<char>>>) -> Map<u64, Seq<char>>
    decreases entries.len(),
{
    if entries.len() == 0 {
        Map::empty()
    } else {
        let before = ruby_values(entries.drop_last(), tables);
        let e = entries.last();
        match (to_u64(int_field(e, FIELD_RUBY_ID)), ruby_text_spec(e, tables)) {
            (Some(id), Some(text)) => before.insert(id, text),
            _ => before,
        }
    }
}

/// The ruby contents of a fragment: its texts, filed under its entity id
/// and under its declared symbol, when it has any text.
pub open spec fn ruby_fragment_after(
    m: Map<(usize, u64), Map<u64, Seq<char>>>,
    f: FragmentView,
    tables: Map<u32, Seq<Seq<char>>>,
) -> Map<(usize, u64), Map<u64, Seq<char>>> {
    if f.fragment_type != KFX_RUBY_CONTENT_FRAGMENT_TYPE {
        m
    } else {
        match field_of(f.value, FIELD_TEXT_VALUES) {
            Some(list) => match items_of(list) {
                Some(entries) => {
                    let values = ruby_values(entries, tables);
                    if values.dom().len() == 0 {
                        m
                    } else {
                        let by_entity = m.insert((f.container_index, f.entity_id as u64), values);
                        match symbol_field(f.value, FIELD_RUBY_FRAGMENT_SYMBOL) {
                            Some(symbol) => by_entity.insert((f.container_index, symbol), values),
                            None => by_entity,
                        }
                    }
                },
                None => m,
            },
            None => m,
        }
    }
}

pub open spec fn ruby_contents_spec(fs: Seq<FragmentView>, tables: Map<u32, Seq<Seq<char>>>) -> Map<(usize, u64), Map<u64, Seq<char>>>
    decreases fs.len(),
{
    if fs.len() == 0 {
        Map::empty()
    } else {
        ruby_fragment_after(ruby_contents_spec(fs.drop_last(), tables), fs.last(), tables)
    }
}

fn ruby_entry_values(entries: &Vec<IonValue>, tables: &BTreeMap<u32, Vec<String>>) -> (r: BTreeMap<u64, String>)
    ensures
        r@.map_values(|s: String| s@) == ruby_values(models(entries@), table_views(tables@)),
{
    let ghost ms = models(entries@);
    let ghost tv = table_views(tables@);
    proof {
        lemma_models_index(entries@);
    }
    let mut values: BTreeMap<u64, String> = BTreeMap::new();
    let mut i: usize = 0;
    while i < entries.len()
        invariant
            0 <= i <= entries@.len(),
            ms == models(entries@),
            ms.len() == entries@.len(),
            tv == table_views(tables@),
            forall|k: int| 0 <= k < entries@.len() ==> #[trigger] ms[k] == entries@[k]@,
            values@.map_values(|s: String| s@) == ruby_values(ms.take(i as int), tv),
        decreases entries@.len() - i,
    {
        proof {
            assert(ms.take(i + 1).drop_last() =~= ms.take(i as int));
        }
        let entry = &entries[i];
        let id = match int_field_of(entry, FIELD_RUBY_ID) {
            Some(v) => if v >= 0 { Some(v as u64) } else { None },
            None => None,
        };
        let text = ruby_content_text(entry, tables);
        match (id, text) {
            (Some(id), Some(text)) => {
                let ghost before = values@;
                values.insert(id, owned(text));
                proof {
                    assert(values@.map_values(|s: String| s@) =~= before.map_values(|s: String| s@).insert(id, text@));
                }
            },
            _ => {},
        }
        i = i + 1;
    }
    assert(ms.take(ms.len() as int) =~= ms);
    values
}

fn copy_values(values: &BTreeMap<u64, String>) -> (r: BTreeMap<u64, String>)
    ensures
        r@.map_values(|s: String| s@) == values@.map_values(|s: String| s@),
{
    let r = values.clone();
    assert(r@ == values@);
    r
}

/// Collects the ruby texts of every `$756` fragment, under its container
/// and both of its keys.
pub fn collect_ruby_contents(model: &NativeModel) -> (r: BTreeMap<(usize, u64), BTreeMap<u64, String>>)
    ensures
        ruby_map_view(r@) == ruby_contents_spec(model@.fragments, model@.string_tables),
{
    let fragments = &model.fragments;
    let string_tables = &model.string_tables;
    let ghost fs = fragment_views(fragments@);
    let ghost tv = table_views(string_tables@);
    let mut output: BTreeMap<(usize, u64), BTreeMap<u64, String>> = BTreeMap::new();
    proof {
        assert(ruby_map_view(output@) =~= Map::<(usize, u64), Map<u64, Seq<char>>>::empty());
    }
    let mut i: usize = 0;
    while i < fragments.len()
        invariant
            0 <= i <= fragments@.len(),
            fs == fragment_views(fragments@),
            fs.len() == fragments@.len(),
            tv == table_views(string_tables@),
            ruby_map_view(output@) == ruby_contents_spec(fs.take(i as int), tv),
        decreases fragments@.len() - i,
    {
        proof {
            assert(fs.take(i + 1).drop_last() =~= fs.take(i as int));
            assert(fs[i as int] == fragments@[i as int]@);
        }
        let fragment = &fragments[i];
        if fragment.fragment_type == KFX_RUBY_CONTENT_FRAGMENT_TYPE {
            match struct_get(&fragment.value, FIELD_TEXT_VALUES) {
                Some(list) => match list_items(list) {
                    Some(entries) => {
                        let values = ruby_entry_values(entries, string_tables);
                        let ghost vv = values@.map_values(|s: String| s@);
                        proof {
                            assert(vv.dom() =~= values@.dom());
                        }
                        if values.len() > 0 {
                            let ghost m0 = ruby_map_view(output@);
                            let entity_key = (fragment.container_index, fragment.entity_id as u64);
                            output.insert(entity_key, copy_values(&values));
                            match symbol_field_of(&fragment.value, FIELD_RUBY_FRAGMENT_SYMBOL) {
                                Some(symbol) => {
                                    output.insert((fragment.container_index, symbol), values);
                                    proof {
                                        assert(ruby_map_view(output@) =~= m0.insert(entity_key, vv).insert((fragment.container_index, symbol), vv));
                                    }
                                },
                                None => {
                                    proof {
                                        assert(ruby_map_view(output@) =~= m0.insert(entity_key, vv));
                                    }
                                },
                            }
                        } else {
                            proof {
                                assert(vv.dom().len() == 0);
                            }
                        }
                    },
                    None => {},
                },
                None => {},
            }
        }
        i = i + 1;
    }
    assert(fs.take(fs.len() as int) =~= fs);
    output
}

/// The ruby text `ruby_id` of the fragment known as `symbol` in a container.
pub open spec fn ruby_text_for_id_spec(
    contents: Map<(usize, u64), Map<u64, Seq<char>>>,
    container_index: usize,
    symbol: u64,
    ruby_id: i64,
) -> Option<Seq<char>> {
    if ruby_id >= 0 && contents.contains_key((container_index, symbol))
        && contents[(container_index, symbol)].contains_key(ruby_id as u64) {
        Some(contents[(container_index, symbol)][ruby_id as u64])
    } else {
        None
    }
}

pub fn ruby_text_for_id(
    ruby_contents: &BTreeMap<(usize, u64), BTreeMap<u64, String>>,
    container_index: usize,
    symbol: u64,
    ruby_id: i64,
) -> (r: Option<String>)
    ensures
        match r {
            Some(t) => ruby_text_for_id_spec(ruby_map_view(ruby_contents@), container_index, symbol, ruby_id) == Some(t@),
            None => ruby_text_for_id_spec(ruby_map_view(ruby_contents@), container_index, symbol, ruby_id) is None,
        },
{
    broadcast use vstd::std_specs::btree::group_btree_axioms;
    if ruby_id < 0 {
        return None;
    }
    let id = ruby_id as u64;
    match ruby_contents.get(&(container_index, symbol)) {
        Some(values) => match values.get(&id) {
            Some(text) => Some(owned(text.as_str())),
            None => None,
        },
        None => None,
    }
}

/// A ruby annotation: the text over the run's characters
/// `text_offset .. text_offset + text_length`.
#[derive(Clone, Debug, PartialEq, Eq)]
pub struct KfxRubyAnnotation {
    pub text_offset: usize,
    pub text_length: usize,
    pub text: String,
}

pub type RubyView = (usize, usize, Seq<char>);

impl View for KfxRubyAnnotation {
    type V = RubyView;

    open spec fn view(&self) -> RubyView {
        (self.text_offset, self.text_length, self.text@)
    }
}

pub open spec fn ruby_views(s: Seq<KfxRubyAnnotation>) -> Seq<RubyView> {
    s.map_values(|a: KfxRubyAnnotation| a@)
}

pub open spec fn annotation_at(range: Option<(usize, usize)>, text: Option<Seq<char>>) -> Seq<RubyView> {
    match (range, text) {
        (Some((start, end)), Some(t)) => seq![(start, (end - start) as usize, t)],
        _ => Seq::empty(),
    }
}

/// The annotations of the ranges listed in an event's `$759`: each range's
/// own id (else the event's) over its own range (else the event's).
pub open spec fn range_annotations(
    ranges: Seq<IonModel>,
    item: IonModel,
    symbol: u64,
    contents: Map<(usize, u64), Map<u64, Seq<char>>>,
    container_index: usize,
    text_char_count: usize,
) -> Seq<RubyView>
    decreases ranges.len(),
{
    if ranges.len() == 0 {
        Seq::empty()
    } else {
        let before = range_annotations(ranges.drop_last(), item, symbol, contents, container_index, text_char_count);
        let range = ranges.last();
        let id = match int_field(range, FIELD_RUBY_ID) {
            Some(i) => Some(i),
            None => int_field(item, FIELD_RUBY_ID),
        };
        match id {
            Some(id) => {
                let r = match ruby_range_spec(range, text_char_count) {
                    Some(x) => Some(x),
                    None => ruby_range_spec(item, text_char_count),
                };
                before + annotation_at(r, ruby_text_for_id_spec(contents, container_index, symbol, id))
            },
            None => before,
        }
    }
}

/// The annotations of one style event that names a ruby fragment.
pub open spec fn event_annotations(
    item: IonModel,
    contents: Map<(usize, u64), Map<u64, Seq<char>>>,
    container_index: usize,
    text_char_count: usize,
) -> Seq<RubyView> {
    match symbol_field(item, FIELD_RUBY_FRAGMENT_SYMBOL) {
        None => Seq::empty(),
        Some(symbol) => {
            let first = match int_field(item, FIELD_RUBY_ID) {
                Some(id) => annotation_at(ruby_range_spec(item, text_char_count), ruby_text_for_id_spec(contents, container_index, symbol, id)),
                None => Seq::empty(),
            };
            match field_of(item, FIELD_RUBY_ID_LIST) {
                Some(list) => match items_of(list) {
                    Some(ranges) => first + range_annotations(ranges, item, symbol, contents, container_index, text_char_count),
                    None => first,
                },
                None => first,
            }
        },
    }
}

pub open spec fn events_annotations(
    items: Seq<IonModel>,
    contents: Map<(usize, u64), Map<u64, Seq<char>>>,
    container_index: usize,
    text_char_count: usize,
) -> Seq<RubyView>
    decreases items.len(),
{
    if items.len() == 0 {
        Seq::empty()
    } else {
        events_annotations(items.drop_last(), contents, container_index, text_char_count)
            + event_annotations(items.last(), contents, container_index, text_char_count)
    }
}

/// `a` comes no later than `b`: by offset, then by length.
pub open spec fn ruby_key_le(a: RubyView, b: RubyView) -> bool {
    a.0 < b.0 || (a.0 == b.0 && a.1 <= b.1)
}

/// Where a stable insertion puts `x`: after the last element, counting from
/// the end, that does not come after it.
pub open spec fn insert_pos(s: Seq<RubyView>, x: RubyView) -> int
    decreases s.len(),
{
    if s.len() == 0 || ruby_key_le(s.last(), x) {
        s.len() as int
    } else {
        insert_pos(s.drop_last(), x)
    }
}

/// A stable sort by offset, then length.
pub open spec fn ruby_sorted(s: Seq<RubyView>) -> Seq<RubyView>
    decreases s.len(),
{
    if s.len() == 0 {
        Seq::empty()
    } else {
        let t = ruby_sorted(s.drop_last());
        t.insert(insert_pos(t, s.last()), s.last())
    }
}

/// Consecutive repeats removed.
pub open spec fn deduped(s: Seq<RubyView>) -> Seq<RubyView>
    decreases s.len(),
{
    if s.len() == 0 {
        Seq::empty()
    } else {
        let d = deduped(s.drop_last());
        if d.len() > 0 && d.last() == s.last() { d } else { d.push(s.last()) }
    }
}

/// The ruby annotations of a text run of `text_char_count` characters.
pub open spec fn ruby_annotations_spec(
    parent: IonModel,
    contents: Map<(usize, u64), Map<u64, Seq<char>>>,
    container_index: usize,
    text_char_count: usize,
) -> Seq<RubyView> {
    match field_of(parent, FIELD_TEXT_STYLE_EVENTS) {
        Some(list) => match items_of(list) {
            Some(items) => deduped(ruby_sorted(events_annotations(items, contents, container_index, text_char_count))),
            None => Seq::empty(),
        },
        None => Seq::empty(),
    }
}

pub open spec fn ruby_in_order(s: Seq<RubyView>) -> bool {
    forall|i: int, j: int| 0 <= i < j < s.len() ==> ruby_key_le(#[trigger] s[i], #[trigger] s[j])
}

proof fn lemma_insert_pos_bounds(s: Seq<RubyView>, x: RubyView)
    ensures
        0 <= insert_pos(s, x) <= s.len(),
        forall|k: int| insert_pos(s, x) <= k < s.len() ==> !ruby_key_le(#[trigger] s[k], x),
        insert_pos(s, x) > 0 ==> ruby_key_le(s[insert_pos(s, x) - 1], x),
    decreases s.len(),
{
    if s.len() > 0 && !ruby_key_le(s.last(), x) {
        let t = s.drop_last();
        lemma_insert_pos_bounds(t, x);
        assert forall|k: int| insert_pos(s, x) <= k < s.len() implies !ruby_key_le(#[trigger] s[k], x) by {
            if k < s.len() - 1 {
                assert(s[k] == t[k]);
            }
        }
        if insert_pos(s, x) > 0 {
            assert(s[insert_pos(s, x) - 1] == t[insert_pos(s, x) - 1]);
        }
    }
}

proof fn lemma_insert_in_order(s: Seq<RubyView>, x: RubyView)
    requires
        ruby_in_order(s),
    ensures
        ruby_in_order(s.insert(insert_pos(s, x), x)),
{
    lemma_insert_pos_bounds(s, x);
    let p = insert_pos(s, x);
    let t = s.insert(p, x);
    assert forall|i: int, j: int| 0 <= i < j < t.len() implies ruby_key_le(#[trigger] t[i], #[trigger] t[j]) by {
        if j < p {
        } else if j == p {
            if i < p - 1 {
                assert(ruby_key_le(s[i], s[p - 1]));
            }
        } else if i < p {
        } else if i == p {
            assert(!ruby_key_le(s[j - 1], x));
        } else {
        }
    }
}

proof fn lemma_sorted_in_order(s: Seq<RubyView>)
    ensures
        ruby_in_order(ruby_sorted(s)),
        ruby_sorted(s).len() == s.len(),
    decreases s.len(),
{
    if s.len() > 0 {
        lemma_sorted_in_order(s.drop_last());
        lemma_insert_in_order(ruby_sorted(s.drop_last()), s.last());
        lemma_insert_pos_bounds(ruby_sorted(s.drop_last()), s.last());
    }
}

proof fn lemma_deduped_in_order(s: Seq<RubyView>)
    requires
        ruby_in_order(s),
    ensures
        ruby_in_order(deduped(s)),
        deduped(s).len() <= s.len(),
        forall|i: int| 0 <= i < deduped(s).len() ==> s.contains(#[trigger] deduped(s)[i]),
        s.len() > 0 ==> deduped(s).len() > 0 && deduped(s).last() == s.last(),
    decreases s.len(),
{
    if s.len() > 0 {
        let t = s.drop_last();
        assert(ruby_in_order(t));
        lemma_deduped_in_order(t);
        let d = deduped(t);
        assert forall|i: int| 0 <= i < d.len() implies ruby_key_le(#[trigger] d[i], s.last()) by {
            assert(t.contains(d[i]));
            let w = choose|w: int| 0 <= w < t.len() && t[w] == d[i];
            assert(s[w] == d[i]);
        }
        assert forall|i: int| 0 <= i < deduped(s).len() implies s.contains(#[trigger] deduped(s)[i]) by {
            if i < d.len() {
                assert(t.contains(d[i]));
                let w = choose|w: int| 0 <= w < t.len() && t[w] == d[i];
                assert(s[w] == d[i]);
            } else {
                assert(s[s.len() - 1] == s.last());
            }
        }
    }
}

fn same_annotation(a: &KfxRubyAnnotation, b: &KfxRubyAnnotation) -> (r: bool)
    ensures
        r == (a@ == b@),
{
    if a.text_offset != b.text_offset || a.text_length != b.text_length {
        return false;
    }
    let x = crate::text::chars_of(a.text.as_str());
    let y = crate::text::chars_of(b.text.as_str());
    crate::text::chars_eq(x.as_slice(), y.as_slice())
}

fn copy_annotation(a: &KfxRubyAnnotation) -> (r: KfxRubyAnnotation)
    ensures
        r@ == a@,
{
    KfxRubyAnnotation { text_offset: a.text_offset, text_length: a.text_length, text: owned(a.text.as_str()) }
}

fn stable_sort_annotations(items: &Vec<KfxRubyAnnotation>) -> (r: Vec<KfxRubyAnnotation>)
    ensures
        ruby_views(r@) == ruby_sorted(ruby_views(items@)),
{
    let ghost v = ruby_views(items@);
    let mut out: Vec<KfxRubyAnnotation> = Vec::new();
    let mut i: usize = 0;
    while i < items.len()
        invariant
            0 <= i <= items@.len(),
            v == ruby_views(items@),
            ruby_views(out@) == ruby_sorted(v.take(i as int)),
            out@.len() == i,
        decreases items@.len() - i,
    {
        let ghost t = ruby_views(out@);
        let x = copy_annotation(&items[i]);
        proof {
            assert(v.take(i + 1).drop_last() =~= v.take(i as int));
            assert(v.take(i + 1).last() == x@);
            lemma_sorted_in_order(v.take(i as int));
        }
        let mut k: usize = out.len();
        assert(t.take(k as int) =~= t);
        while k > 0 && !(out[k - 1].text_offset < x.text_offset
            || (out[k - 1].text_offset == x.text_offset && out[k - 1].text_length <= x.text_length))
            invariant
                0 <= k <= out@.len(),
                t == ruby_views(out@),
                insert_pos(t, x@) == insert_pos(t.take(k as int), x@),
            decreases k,
        {
            proof {
                assert(t.take(k as int).drop_last() =~= t.take(k - 1));
                assert(t.take(k as int).last() == t[k - 1]);
            }
            k = k - 1;
        }
        proof {
            if k > 0 {
                assert(t.take(k as int).last() == t[k - 1]);
            }
            assert(insert_pos(t.take(k as int), x@) == k);
        }
        out.insert(k, x);
        proof {
            assert(ruby_views(out@) =~= t.insert(k as int, x@));
        }
        i = i + 1;
    }
    assert(v.take(v.len() as int) =~= v);
    out
}

fn dedup_annotations(items: Vec<KfxRubyAnnotation>) -> (r: Vec<KfxRubyAnnotation>)
    ensures
        ruby_views(r@) == deduped(ruby_views(items@)),
{
    let ghost v = ruby_views(items@);
    let mut out: Vec<KfxRubyAnnotation> = Vec::new();
    let mut i: usize = 0;
    while i < items.len()
        invariant
            0 <= i <= items@.len(),
            v == ruby_views(items@),
            ruby_views(out@) == deduped(v.take(i as int)),
        decreases items@.len() - i,
    {
        proof {
            assert(v.take(i + 1).drop_last() =~= v.take(i as int));
            assert(v.take(i + 1).last() == items@[i as int]@);
        }
        let repeat = out.len() > 0 && same_annotation(&out[out.len() - 1], &items[i]);
        if !repeat {
            let ghost before = out@;
            out.push(copy_annotation(&items[i]));
            proof {
                assert(ruby_views(out@) =~= ruby_views(before).push(items@[i as int]@));
            }
        }
        i = i + 1;
    }
    assert(v.take(v.len() as int) =~= v);
    out
}

fn push_annotation(
    out: &mut Vec<KfxRubyAnnotation>,
    range: Option<(usize, usize)>,
    ruby_contents: &BTreeMap<(usize, u64), BTreeMap<u64, String>>,
    container_index: usize,
    symbol: u64,
    ruby_id: i64,
)
    requires
        range matches Some((s, e)) ==> s <= e,
    ensures
        ruby_views(final(out)@) == ruby_views(old(out)@) + annotation_at(range, ruby_text_for_id_spec(ruby_map_view(ruby_contents@), container_index, symbol, ruby_id)),
{
    let ghost before = out@;
    match range {
        Some((start, end)) => match ruby_text_for_id(ruby_contents, container_index, symbol, ruby_id) {
            Some(text) => {
                out.push(KfxRubyAnnotation { text_offset: start, text_length: end - start, text });
                proof {
                    assert(ruby_views(out@) =~= ruby_views(before) + annotation_at(range, ruby_text_for_id_spec(ruby_map_view(ruby_contents@), container_index, symbol, ruby_id)));
                }
            },
            None => {
                assert(ruby_views(out@) =~= ruby_views(before) + Seq::<RubyView>::empty());
            },
        },
        None => {
            assert(ruby_views(out@) =~= ruby_views(before) + Seq::<RubyView>::empty());
        },
    }
}

proof fn lemma_ruby_range_ordered(item: IonModel, n: usize)
    ensures
        ruby_range_spec(item, n) matches Some((s, e)) ==> s < e,
{
}

/// The ruby annotations of a text run of `text_char_count` characters,
/// sorted by offset then length, consecutive repeats removed.
pub fn content_ruby_annotations(
    parent: &IonValue,
    ruby_contents: &BTreeMap<(usize, u64), BTreeMap<u64, String>>,
    container_index: usize,
    text_char_count: usize,
) -> (r: Vec<KfxRubyAnnotation>)
    ensures
        ruby_views(r@) == ruby_annotations_spec(parent@, ruby_map_view(ruby_contents@), container_index, text_char_count),
        ruby_in_order(ruby_views(r@)),
{
    let ghost cv = ruby_map_view(ruby_contents@);
    let items = match struct_get(parent, FIELD_TEXT_STYLE_EVENTS) {
        Some(list) => match list_items(list) {
            Some(items) => items,
            None => {
                let r: Vec<KfxRubyAnnotation> = Vec::new();
                assert(ruby_views(r@) =~= Seq::<RubyView>::empty());
                return r;
            },
        },
        None => {
            let r: Vec<KfxRubyAnnotation> = Vec::new();
            assert(ruby_views(r@) =~= Seq::<RubyView>::empty());
            return r;
        },
    };
    let ghost ms = models(items@);
    proof {
        lemma_models_index(items@);
    }
    let mut raw: Vec<KfxRubyAnnotation> = Vec::new();
    assert(ruby_views(raw@) =~= Seq::<RubyView>::empty());
    let mut i: usize = 0;
    while i < items.len()
        invariant
            0 <= i <= items@.len(),
            ms == models(items@),
            ms.len() == items@.len(),
            forall|k: int| 0 <= k < items@.len() ==> #[trigger] ms[k] == items@[k]@,
            cv == ruby_map_view(ruby_contents@),
            ruby_views(raw@) == events_annotations(ms.take(i as int), cv, container_index, text_char_count),
        decreases items@.len() - i,
    {
        let ghost before = ruby_views(raw@);
        proof {
            assert(ms.take(i + 1).drop_last() =~= ms.take(i as int));
            assert(ms.take(i + 1).last() == items@[i as int]@);
        }
        let item = &items[i];
        match symbol_field_of(item, FIELD_RUBY_FRAGMENT_SYMBOL) {
            None => {
                assert(ruby_views(raw@) =~= before + Seq::<RubyView>::empty());
            },
            Some(symbol) => {
                let default_range = ruby_range(item, text_char_count);
                proof {
                    lemma_ruby_range_ordered(item@, text_char_count);
                }
                let item_id = int_field_of(item, FIELD_RUBY_ID);
                match item_id {
                    Some(id) => push_annotation(&mut raw, default_range, ruby_contents, container_index, symbol, id),
                    None => {
                        assert(ruby_views(raw@) =~= before + Seq::<RubyView>::empty());
                    },
                }
                let ghost after_first = ruby_views(raw@);
                match struct_get(item, FIELD_RUBY_ID_LIST) {
                    Some(list) => match list_items(list) {
                        Some(ranges) => {
                            let ghost rs = models(ranges@);
                            proof {
                                lemma_models_index(ranges@);
                            }
                            let mut j: usize = 0;
                            while j < ranges.len()
                                invariant
                                    0 <= j <= ranges@.len(),
                                    rs == models(ranges@),
                                    rs.len() == ranges@.len(),
                                    forall|k: int| 0 <= k < ranges@.len() ==> #[trigger] rs[k] == ranges@[k]@,
                                    cv == ruby_map_view(ruby_contents@),
                                    item_id == int_field(item@, FIELD_RUBY_ID),
                                    default_range == ruby_range_spec(item@, text_char_count),
                                    default_range matches Some((s, e)) ==> s < e,
                                    ruby_views(raw@) == after_first + range_annotations(rs.take(j as int), item@, symbol, cv, container_index, text_char_count),
                                decreases ranges@.len() - j,
                            {
                                let ghost b2 = ruby_views(raw@);
                                proof {
                                    assert(rs.take(j + 1).drop_last() =~= rs.take(j as int));
                                    assert(rs.take(j + 1).last() == ranges@[j as int]@);
                                }
                                let range = &ranges[j];
                                let id = match int_field_of(range, FIELD_RUBY_ID) {
                                    Some(x) => Some(x),
                                    None => item_id,
                                };
                                match id {
                                    Some(id) => {
                                        let own = ruby_range(range, text_char_count);
                                        proof {
                                            lemma_ruby_range_ordered(range@, text_char_count);
                                        }
                                        let r = match own {
                                            Some(x) => Some(x),
                                            None => default_range,
                                        };
                                        push_annotation(&mut raw, r, ruby_contents, container_index, symbol, id);
                                        proof {
                                            assert(ruby_views(raw@) =~= after_first + range_annotations(rs.take(j + 1), item@, symbol, cv, container_index, text_char_count));
                                        }
                                    },
                                    None => {},
                                }
                                j = j + 1;
                            }
                            assert(rs.take(rs.len() as int) =~= rs);
                        },
                        None => {
                            assert(ruby_views(raw@) =~= after_first + Seq::<RubyView>::empty());
                        },
                    },
                    None => {
                        assert(ruby_views(raw@) =~= after_first + Seq::<RubyView>::empty());
                    },
                }
                proof {
                    assert(ruby_views(raw@) =~= before + event_annotations(item@, cv, container_index, text_char_count));
                }
            },
        }
        i = i + 1;
    }
    assert(ms.take(ms.len() as int) =~= ms);
    let sorted = stable_sort_annotations(&raw);
    let r = dedup_annotations(sorted);
    proof {
        lemma_sorted_in_order(ruby_views(raw@));
        lemma_deduped_in_order(ruby_sorted(ruby_views(raw@)));
    }
    r
}

} // verus!
