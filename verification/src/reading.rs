//! The reading order of a book: the sections its reading orders list, and
//! the stories (content fragments) those sections reference, each once.
use vstd::prelude::*;
use std::collections::BTreeMap;
use crate::ion::{IonModel, IonValue, models, field_models, lemma_models_index, lemma_field_models_index};
use crate::native::{ContainerOwnedView, NativeContainerOwned, NativeFragment, NativeModel, NativeModelView, FragmentView, container_views, fragment_views, copy_string};
use crate::nav::{fragment_fid, resolved_fragment_fid};
use crate::decode::opt_string_view;
use crate::value::{field_of, struct_get};
use crate::strset::{StringSet, string_views};
use crate::text::{str_eq, decimal, decimal_into, chars_of, string_from_chars, lemma_decimal_digits};
use crate::resource_audit::name_map;

verus! {

pub const FIELD_CONTENT_FRAGMENT_SYMBOL: u64 = 176;
pub const FIELD_READING_ORDERS: u64 = 169;
pub const FIELD_READING_ORDER_SECTIONS: u64 = 170;
pub const READING_ORDER_FRAGMENT_TYPE: u32 = 538;
pub const DOCUMENT_DATA_FRAGMENT_TYPE: u32 = 258;
pub const SECTION_FRAGMENT_TYPE: u32 = 260;
pub const STORY_FRAGMENT_TYPE: u32 = 259;

/// The name a value gives: a symbol's name in the table, or a string.
pub open spec fn value_name(m: IonModel, names: Map<u64, Seq<char>>) -> Option<Seq<char>> {
    match m {
        IonModel::Symbol(s) => if names.contains_key(s) { Some(names[s]) } else { None },
        IonModel::String(s) => Some(s),
        _ => None,
    }
}

/// `out` with `n` appended, unless it holds `n` already.
pub open spec fn push_unique(out: Seq<Seq<char>>, n: Seq<char>) -> Seq<Seq<char>> {
    if out.contains(n) { out } else { out.push(n) }
}

/// The story names (`$176`) of a section tree, each once, in order; a
/// `$176` field is not searched further.
pub open spec fn stories_walk(out: Seq<Seq<char>>, m: IonModel, names: Map<u64, Seq<char>>) -> Seq<Seq<char>>
    decreases m,
{
    match m {
        IonModel::Struct(fields) => stories_fields(out, fields, names),
        IonModel::List(items) => stories_items(out, items, names),
        IonModel::SExp(items) => stories_items(out, items, names),
        IonModel::Annotation { value, .. } => stories_walk(out, *value, names),
        _ => out,
    }
}

pub open spec fn stories_items(out: Seq<Seq<char>>, s: Seq<IonModel>, names: Map<u64, Seq<char>>) -> Seq<Seq<char>>
    decreases s,
{
    if s.len() == 0 {
        out
    } else {
        stories_walk(stories_items(out, s.drop_last(), names), s.last(), names)
    }
}

pub open spec fn stories_fields(out: Seq<Seq<char>>, s: Seq<(u64, IonModel)>, names: Map<u64, Seq<char>>) -> Seq<Seq<char>>
    decreases s,
{
    if s.len() == 0 {
        out
    } else {
        proof {
            assert(decreases_to!(s => s[s.len() - 1].1));
        }
        let prev = stories_fields(out, s.drop_last(), names);
        if s.last().0 == FIELD_CONTENT_FRAGMENT_SYMBOL {
            match value_name(s.last().1, names) {
                Some(n) => push_unique(prev, n),
                None => prev,
            }
        } else {
            stories_walk(prev, s.last().1, names)
        }
    }
}

/// The names of a list of section values, each once, after `out`.
pub open spec fn names_of_items(out: Seq<Seq<char>>, s: Seq<IonModel>, names: Map<u64, Seq<char>>) -> Seq<Seq<char>>
    decreases s.len(),
{
    if s.len() == 0 {
        out
    } else {
        let prev = names_of_items(out, s.drop_last(), names);
        match value_name(s.last(), names) {
            Some(n) => push_unique(prev, n),
            None => prev,
        }
    }
}

/// The section names of the reading orders, each once, in order.
pub open spec fn section_names(ros: Seq<IonModel>, names: Map<u64, Seq<char>>) -> Seq<Seq<char>>
    decreases ros.len(),
{
    if ros.len() == 0 {
        Seq::empty()
    } else {
        let prev = section_names(ros.drop_last(), names);
        match field_of(ros.last(), FIELD_READING_ORDER_SECTIONS) {
            Some(IonModel::List(sections)) => names_of_items(prev, sections, names),
            _ => prev,
        }
    }
}

/// The position of the first fragment of type `t`.
pub open spec fn first_of_type(fs: Seq<FragmentView>, t: u32) -> Option<int>
    decreases fs.len(),
{
    if fs.len() == 0 {
        None
    } else {
        match first_of_type(fs.drop_last(), t) {
            Some(i) => Some(i),
            None => if fs.last().fragment_type == t { Some(fs.len() - 1) } else { None },
        }
    }
}

/// The positions of the fragments of type `t` whose fid is `name`.
pub open spec fn typed_matches(fs: Seq<FragmentView>, cs: Seq<ContainerOwnedView>, t: u32, name: Seq<char>) -> Seq<usize>
    decreases fs.len(),
{
    if fs.len() == 0 {
        Seq::empty()
    } else {
        let prev = typed_matches(fs.drop_last(), cs, t, name);
        if fs.last().fragment_type == t && fragment_fid(cs, fs.last()) == Some(name) {
            prev.push((fs.len() - 1) as usize)
        } else {
            prev
        }
    }
}

/// One story: the first time it is met, its content fragment is listed
/// when exactly one has its name.
pub open spec fn story_step(m: NativeModelView, state: (Set<Seq<char>>, Seq<usize>), story: Seq<char>) -> (Set<Seq<char>>, Seq<usize>) {
    if state.0.contains(story) {
        state
    } else {
        let found = typed_matches(m.fragments, m.containers, STORY_FRAGMENT_TYPE, story);
        (state.0.insert(story), if found.len() == 1 { state.1.push(found[0]) } else { state.1 })
    }
}

pub open spec fn stories_fold(m: NativeModelView, state: (Set<Seq<char>>, Seq<usize>), stories: Seq<Seq<char>>) -> (Set<Seq<char>>, Seq<usize>)
    decreases stories.len(),
{
    if stories.len() == 0 {
        state
    } else {
        story_step(m, stories_fold(m, state, stories.drop_last()), stories.last())
    }
}

/// One section: when exactly one section fragment has its name and its
/// container exists, its stories are taken in order.
pub open spec fn section_step(m: NativeModelView, state: (Set<Seq<char>>, Seq<usize>), section: Seq<char>) -> (Set<Seq<char>>, Seq<usize>) {
    let found = typed_matches(m.fragments, m.containers, SECTION_FRAGMENT_TYPE, section);
    if found.len() != 1 {
        state
    } else {
        let f = m.fragments[found[0] as int];
        if f.container_index >= m.containers.len() {
            state
        } else {
            stories_fold(m, state, stories_walk(Seq::empty(), f.value, m.containers[f.container_index as int].symbols.names))
        }
    }
}

pub open spec fn sections_fold(m: NativeModelView, sections: Seq<Seq<char>>) -> (Set<Seq<char>>, Seq<usize>)
    decreases sections.len(),
{
    if sections.len() == 0 {
        (Set::empty(), Seq::empty())
    } else {
        section_step(m, sections_fold(m, sections.drop_last()), sections.last())
    }
}

/// The reading-order fragment: the first `$538`, else the first `$258`.
pub open spec fn reading_order_index(fs: Seq<FragmentView>) -> Option<int> {
    match first_of_type(fs, READING_ORDER_FRAGMENT_TYPE) {
        Some(i) => Some(i),
        None => first_of_type(fs, DOCUMENT_DATA_FRAGMENT_TYPE),
    }
}

/// The positions of the content fragments in reading order; `None` when the
/// book has no usable reading order.
pub open spec fn ordered_content_spec(m: NativeModelView) -> Option<Seq<usize>> {
    match reading_order_index(m.fragments) {
        None => None,
        Some(i) => {
            let f = m.fragments[i];
            if f.container_index >= m.containers.len() {
                None
            } else {
                match field_of(f.value, FIELD_READING_ORDERS) {
                    Some(IonModel::List(ros)) => Some(sections_fold(m, section_names(ros, m.containers[f.container_index as int].symbols.names)).1),
                    _ => None,
                }
            }
        },
    }
}

/// The name a value gives in a container's symbol table.
pub fn value_name_of(value: &IonValue, names: &BTreeMap<u64, String>) -> (r: Option<String>)
    ensures
        opt_string_view(r) == value_name(value@, name_map(names)),
{
    match value {
        IonValue::Symbol(sym) => match names.get(sym) {
            Some(n) => Some(copy_string(n)),
            None => None,
        },
        IonValue::String(s) => Some(copy_string(s)),
        _ => None,
    }
}

fn contains_name(out: &Vec<String>, name: &str) -> (r: bool)
    ensures
        r == string_views(out@).contains(name@),
{
    let ghost sv = string_views(out@);
    let mut i: usize = 0;
    while i < out.len()
        invariant
            0 <= i <= out@.len(),
            sv == string_views(out@),
            forall|k: int| 0 <= k < i ==> #[trigger] sv[k] != name@,
        decreases out@.len() - i,
    {
        assert(sv[i as int] == out@[i as int]@);
        if str_eq(out[i].as_str(), name) {
            return true;
        }
        i = i + 1;
    }
    false
}

fn push_unique_name(out: &mut Vec<String>, name: String)
    ensures
        string_views(final(out)@) == push_unique(string_views(old(out)@), name@),
{
    if !contains_name(out, name.as_str()) {
        let ghost before = out@;
        out.push(name);
        assert(string_views(out@) =~= string_views(before).push(out@.last()@));
    }
}

/// Collects the story names of a section tree.
pub fn collect_story_names(value: &IonValue, names: &BTreeMap<u64, String>, output: &mut Vec<String>)
    ensures
        string_views(final(output)@) == stories_walk(string_views(old(output)@), value@, name_map(names)),
    decreases value,
{
    match value {
        IonValue::Struct(fields) => stories_in_fields(fields, names, output),
        IonValue::List(items) => stories_in_items(items, names, output),
        IonValue::SExp(items) => stories_in_items(items, names, output),
        IonValue::Annotation { value: inner, .. } => collect_story_names(inner, names, output),
        _ => {},
    }
}

fn stories_in_items(items: &Vec<IonValue>, names: &BTreeMap<u64, String>, output: &mut Vec<String>)
    ensures
        string_views(final(output)@) == stories_items(string_views(old(output)@), models(items@), name_map(names)),
    decreases items,
{
    let ghost ms = models(items@);
    let ghost o0 = string_views(output@);
    proof {
        lemma_models_index(items@);
    }
    let mut i: usize = 0;
    while i < items.len()
        invariant
            0 <= i <= items@.len(),
            ms == models(items@),
            ms.len() == items@.len(),
            forall|k: int| 0 <= k < items@.len() ==> #[trigger] ms[k] == items@[k]@,
            string_views(output@) == stories_items(o0, ms.subrange(0, i as int), name_map(names)),
        decreases items@.len() - i,
    {
        assert(decreases_to!(items => items@[i as int]));
        assert(ms.subrange(0, i + 1).drop_last() =~= ms.subrange(0, i as int));
        collect_story_names(&items[i], names, output);
        i = i + 1;
    }
    assert(ms.subrange(0, ms.len() as int) =~= ms);
}

fn stories_in_fields(fields: &Vec<(u64, IonValue)>, names: &BTreeMap<u64, String>, output: &mut Vec<String>)
    ensures
        string_views(final(output)@) == stories_fields(string_views(old(output)@), field_models(fields@), name_map(names)),
    decreases fields,
{
    let ghost fs = field_models(fields@);
    let ghost o0 = string_views(output@);
    proof {
        lemma_field_models_index(fields@);
    }
    let mut i: usize = 0;
    while i < fields.len()
        invariant
            0 <= i <= fields@.len(),
            fs == field_models(fields@),
            fs.len() == fields@.len(),
            forall|k: int| 0 <= k < fields@.len() ==> #[trigger] fs[k] == (fields@[k].0, fields@[k].1@),
            string_views(output@) == stories_fields(o0, fs.subrange(0, i as int), name_map(names)),
        decreases fields@.len() - i,
    {
        assert(decreases_to!(fields => fields@[i as int].1));
        assert(fs.subrange(0, i + 1).drop_last() =~= fs.subrange(0, i as int));
        if fields[i].0 == FIELD_CONTENT_FRAGMENT_SYMBOL {
            match value_name_of(&fields[i].1, names) {
                Some(n) => push_unique_name(output, n),
                None => {},
            }
        } else {
            collect_story_names(&fields[i].1, names, output);
        }
        i = i + 1;
    }
    assert(fs.subrange(0, fs.len() as int) =~= fs);
}

fn section_names_of(ros: &Vec<IonValue>, names: &BTreeMap<u64, String>) -> (r: Vec<String>)
    ensures
        string_views(r@) == section_names(models(ros@), name_map(names)),
{
    let ghost ms = models(ros@);
    proof {
        lemma_models_index(ros@);
    }
    let mut out: Vec<String> = Vec::new();
    let mut i: usize = 0;
    while i < ros.len()
        invariant
            0 <= i <= ros@.len(),
            ms == models(ros@),
            ms.len() == ros@.len(),
            forall|k: int| 0 <= k < ros@.len() ==> #[trigger] ms[k] == ros@[k]@,
            string_views(out@) == section_names(ms.take(i as int), name_map(names)),
        decreases ros@.len() - i,
    {
        assert(ms.take(i + 1).drop_last() =~= ms.take(i as int));
        match struct_get(&ros[i], FIELD_READING_ORDER_SECTIONS) {
            Some(IonValue::List(sections)) => {
                let ghost sm = models(sections@);
                let ghost start = string_views(out@);
                proof {
                    lemma_models_index(sections@);
                }
                let mut j: usize = 0;
                while j < sections.len()
                    invariant
                        0 <= j <= sections@.len(),
                        sm == models(sections@),
                        sm.len() == sections@.len(),
                        forall|k: int| 0 <= k < sections@.len() ==> #[trigger] sm[k] == sections@[k]@,
                        string_views(out@) == names_of_items(start, sm.take(j as int), name_map(names)),
                    decreases sections@.len() - j,
                {
                    assert(sm.take(j + 1).drop_last() =~= sm.take(j as int));
                    match value_name_of(&sections[j], names) {
                        Some(n) => push_unique_name(&mut out, n),
                        None => {},
                    }
                    j = j + 1;
                }
                assert(sm.take(j as int) =~= sm);
            },
            _ => {},
        }
        i = i + 1;
    }
    assert(ms.take(i as int) =~= ms);
    out
}

proof fn lemma_first_of_type_prefix(fs: Seq<FragmentView>, t: u32, k: int)
    requires
        0 <= k <= fs.len(),
        first_of_type(fs.take(k), t) is Some,
    ensures
        first_of_type(fs, t) == first_of_type(fs.take(k), t),
    decreases fs.len() - k,
{
    if k < fs.len() {
        assert(fs.take(k + 1).drop_last() =~= fs.take(k));
        lemma_first_of_type_prefix(fs, t, k + 1);
    } else {
        assert(fs.take(k) =~= fs);
    }
}

proof fn lemma_first_of_type_bound(fs: Seq<FragmentView>, t: u32)
    ensures
        first_of_type(fs, t) matches Some(i) ==> 0 <= i < fs.len(),
    decreases fs.len(),
{
    if fs.len() > 0 {
        lemma_first_of_type_bound(fs.drop_last(), t);
    }
}

fn first_fragment_of_type(fragments: &Vec<NativeFragment>, t: u32) -> (r: Option<usize>)
    ensures
        match r {
            Some(i) => first_of_type(fragment_views(fragments@), t) == Some(i as int) && i < fragments@.len(),
            None => first_of_type(fragment_views(fragments@), t) is None,
        },
{
    let ghost fs = fragment_views(fragments@);
    let mut i: usize = 0;
    while i < fragments.len()
        invariant
            0 <= i <= fragments@.len(),
            fs == fragment_views(fragments@),
            fs.len() == fragments@.len(),
            first_of_type(fs.take(i as int), t) is None,
        decreases fragments@.len() - i,
    {
        proof {
            assert(fs.take(i + 1).drop_last() =~= fs.take(i as int));
            assert(fs[i as int] == fragments@[i as int]@);
        }
        if fragments[i].fragment_type == t {
            proof {
                lemma_first_of_type_prefix(fs, t, i + 1);
            }
            return Some(i);
        }
        i = i + 1;
    }
    assert(fs.take(i as int) =~= fs);
    None
}

proof fn lemma_typed_matches_bound(fs: Seq<FragmentView>, cs: Seq<ContainerOwnedView>, t: u32, name: Seq<char>)
    requires
        fs.len() <= usize::MAX,
    ensures
        forall|k: int| 0 <= k < typed_matches(fs, cs, t, name).len() ==> #[trigger] typed_matches(fs, cs, t, name)[k] < fs.len(),
    decreases fs.len(),
{
    if fs.len() > 0 {
        let prev = typed_matches(fs.drop_last(), cs, t, name);
        lemma_typed_matches_bound(fs.drop_last(), cs, t, name);
        assert forall|k: int| 0 <= k < typed_matches(fs, cs, t, name).len() implies #[trigger] typed_matches(fs, cs, t, name)[k] < fs.len() by {
            if k < prev.len() {
                assert(typed_matches(fs, cs, t, name)[k] == prev[k]);
            }
        }
    }
}

fn matching_fragments(model: &NativeModel, t: u32, name: &str) -> (r: Vec<usize>)
    ensures
        r@ == typed_matches(model@.fragments, model@.containers, t, name@),
        forall|k: int| 0 <= k < r@.len() ==> #[trigger] r@[k] < model.fragments@.len(),
{
    let ghost fs = model@.fragments;
    let ghost cs = model@.containers;
    let n = model.fragments.len();
    proof {
        assert(fragment_views(model.fragments@) == fs);
        assert(container_views(model.containers@) == cs);
        lemma_typed_matches_bound(fs, cs, t, name@);
    }
    let mut out: Vec<usize> = Vec::new();
    let mut i: usize = 0;
    while i < model.fragments.len()
        invariant
            0 <= i <= model.fragments@.len(),
            fs == model@.fragments,
            cs == model@.containers,
            cs == container_views(model.containers@),
            fs.len() == model.fragments@.len(),
            out@ == typed_matches(fs.take(i as int), cs, t, name@),
        decreases model.fragments@.len() - i,
    {
        proof {
            assert(fs.take(i + 1).drop_last() =~= fs.take(i as int));
            assert(fs[i as int] == model.fragments@[i as int]@);
        }
        let f = &model.fragments[i];
        if f.fragment_type == t {
            match resolved_fragment_fid(&model.containers, f) {
                Some(fid) => {
                    if str_eq(fid.as_str(), name) {
                        out.push(i);
                    }
                },
                None => {},
            }
        }
        i = i + 1;
    }
    assert(fs.take(i as int) =~= fs);
    out
}

/// The positions of the content fragments in reading order: the sections
/// that the reading orders list, and the stories each references, each
/// story once. `None` when there is no reading order to follow.
pub fn ordered_content_fragment_indices(model: &NativeModel) -> (r: Option<Vec<usize>>)
    ensures
        match r {
            Some(v) => ordered_content_spec(model@) == Some(v@),
            None => ordered_content_spec(model@) is None,
        },
{
    let ghost m = model@;
    proof {
        assert(fragment_views(model.fragments@) == m.fragments);
        assert(container_views(model.containers@) == m.containers);
    }
    let ro = match first_fragment_of_type(&model.fragments, READING_ORDER_FRAGMENT_TYPE) {
        Some(i) => i,
        None => match first_fragment_of_type(&model.fragments, DOCUMENT_DATA_FRAGMENT_TYPE) {
            Some(i) => i,
            None => {
                return None;
            },
        },
    };
    let f = &model.fragments[ro];
    assert(m.fragments[ro as int] == f@);
    if f.container_index >= model.containers.len() {
        return None;
    }
    let container = &model.containers[f.container_index];
    assert(m.containers[f.container_index as int] == container@);
    assert(name_map(&container.symbols.names) =~= m.containers[f.container_index as int].symbols.names);
    let ros = match struct_get(&f.value, FIELD_READING_ORDERS) {
        Some(IonValue::List(ros)) => ros,
        _ => {
            return None;
        },
    };
    let sections = section_names_of(ros, &container.symbols.names);
    let ghost sv = string_views(sections@);
    let mut visited = StringSet::new();
    let mut out: Vec<usize> = Vec::new();
    let mut i: usize = 0;
    while i < sections.len()
        invariant
            0 <= i <= sections@.len(),
            m == model@,
            sv == string_views(sections@),
            sv.len() == sections@.len(),
            visited.wf(),
            (visited.set(), out@) == sections_fold(m, sv.take(i as int)),
        decreases sections@.len() - i,
    {
        proof {
            assert(sv.take(i + 1).drop_last() =~= sv.take(i as int));
            assert(sv[i as int] == sections@[i as int]@);
        }
        let found = matching_fragments(model, SECTION_FRAGMENT_TYPE, sections[i].as_str());
        if found.len() == 1 {
            let sec = &model.fragments[found[0]];
            assert(m.fragments[found@[0] as int] == sec@);
            if sec.container_index < model.containers.len() {
                let c = &model.containers[sec.container_index];
                assert(m.containers[sec.container_index as int] == c@);
                assert(name_map(&c.symbols.names) =~= m.containers[sec.container_index as int].symbols.names);
                let mut stories: Vec<String> = Vec::new();
                assert(string_views(stories@) =~= Seq::<Seq<char>>::empty());
                collect_story_names(&sec.value, &c.symbols.names, &mut stories);
                let ghost st = string_views(stories@);
                let ghost start = (visited.set(), out@);
                let mut j: usize = 0;
                while j < stories.len()
                    invariant
                        0 <= j <= stories@.len(),
                        m == model@,
                        st == string_views(stories@),
                        st.len() == stories@.len(),
                        visited.wf(),
                        (visited.set(), out@) == stories_fold(m, start, st.take(j as int)),
                    decreases stories@.len() - j,
                {
                    proof {
                        assert(st.take(j + 1).drop_last() =~= st.take(j as int));
                        assert(st[j as int] == stories@[j as int]@);
                    }
                    if !visited.contains(stories[j].as_str()) {
                        visited.insert_str(stories[j].as_str());
                        let hits = matching_fragments(model, STORY_FRAGMENT_TYPE, stories[j].as_str());
                        if hits.len() == 1 {
                            out.push(hits[0]);
                        }
                    }
                    j = j + 1;
                }
                assert(st.take(j as int) =~= st);
            }
        }
        i = i + 1;
    }
    assert(sv.take(i as int) =~= sv);
    Some(out)
}

/// Where a content fragment stands in reading order: an alias of its
/// section (`S` and its position among the section names) and of its story
/// (`ST` and its position among the stories placed).
#[derive(Debug)]
pub struct ContentTraceLocation {
    pub section_id: Option<String>,
    pub story_id: Option<String>,
}

pub struct TraceLocationView {
    pub section_id: Option<Seq<char>>,
    pub story_id: Option<Seq<char>>,
}

impl View for ContentTraceLocation {
    type V = TraceLocationView;

    open spec fn view(&self) -> TraceLocationView {
        TraceLocationView { section_id: opt_string_view(self.section_id), story_id: opt_string_view(self.story_id) }
    }
}

/// A decimal numeral padded with zeros to at least three digits.
pub open spec fn pad3(d: Seq<char>) -> Seq<char> {
    if d.len() >= 3 {
        d
    } else if d.len() == 2 {
        seq!['0'] + d
    } else {
        seq!['0', '0'] + d
    }
}

pub open spec fn alias_spec(prefix: Seq<char>, n: nat) -> Seq<char> {
    prefix + pad3(decimal(n))
}

/// The state of the trace: the stories met, the locations so far, and the
/// number of stories placed.
pub type TraceState = (Set<Seq<char>>, Map<usize, TraceLocationView>, nat);

pub open spec fn trace_story_step(m: NativeModelView, section_order: nat, state: TraceState, story: Seq<char>) -> TraceState {
    if state.0.contains(story) {
        state
    } else {
        let found = typed_matches(m.fragments, m.containers, STORY_FRAGMENT_TYPE, story);
        if found.len() == 1 {
            let loc = TraceLocationView {
                section_id: Some(alias_spec("S"@, section_order + 1)),
                story_id: Some(alias_spec("ST"@, state.2 + 1)),
            };
            (state.0.insert(story), state.1.insert(found[0], loc), state.2 + 1)
        } else {
            (state.0.insert(story), state.1, state.2)
        }
    }
}

pub open spec fn trace_stories_fold(m: NativeModelView, section_order: nat, state: TraceState, stories: Seq<Seq<char>>) -> TraceState
    decreases stories.len(),
{
    if stories.len() == 0 {
        state
    } else {
        trace_story_step(m, section_order, trace_stories_fold(m, section_order, state, stories.drop_last()), stories.last())
    }
}

pub open spec fn trace_section_step(m: NativeModelView, section_order: nat, state: TraceState, section: Seq<char>) -> TraceState {
    let found = typed_matches(m.fragments, m.containers, SECTION_FRAGMENT_TYPE, section);
    if found.len() != 1 {
        state
    } else {
        let f = m.fragments[found[0] as int];
        if f.container_index >= m.containers.len() {
            state
        } else {
            trace_stories_fold(m, section_order, state, stories_walk(Seq::empty(), f.value, m.containers[f.container_index as int].symbols.names))
        }
    }
}

pub open spec fn trace_sections_fold(m: NativeModelView, sections: Seq<Seq<char>>) -> TraceState
    decreases sections.len(),
{
    if sections.len() == 0 {
        (Set::empty(), Map::empty(), 0)
    } else {
        trace_section_step(m, (sections.len() - 1) as nat, trace_sections_fold(m, sections.drop_last()), sections.last())
    }
}

/// The trace location of each content fragment placed by the reading order.
pub open spec fn trace_locations_spec(m: NativeModelView) -> Map<usize, TraceLocationView> {
    match reading_order_index(m.fragments) {
        None => Map::empty(),
        Some(i) => {
            let f = m.fragments[i];
            if f.container_index >= m.containers.len() {
                Map::empty()
            } else {
                match field_of(f.value, FIELD_READING_ORDERS) {
                    Some(IonModel::List(ros)) => trace_sections_fold(m, section_names(ros, m.containers[f.container_index as int].symbols.names)).1,
                    _ => Map::empty(),
                }
            }
        },
    }
}

pub open spec fn location_map_view(m: Map<usize, ContentTraceLocation>) -> Map<usize, TraceLocationView> {
    m.map_values(|l: ContentTraceLocation| l@)
}

/// `prefix` and `n`, zero-padded to three digits.
pub fn alias(prefix: &str, n: usize) -> (r: String)
    ensures
        r@ == alias_spec(prefix@, n as nat),
{
    let mut digits: Vec<char> = Vec::new();
    decimal_into(n as u64, &mut digits);
    assert(digits@ =~= decimal(n as nat));
    let mut out = chars_of(prefix);
    let ghost p = out@;
    if digits.len() == 1 {
        out.push('0');
        out.push('0');
        assert(out@ =~= p + seq!['0', '0']);
    } else if digits.len() == 2 {
        out.push('0');
        assert(out@ =~= p + seq!['0']);
    }
    let ghost q = out@;
    let mut i: usize = 0;
    while i < digits.len()
        invariant
            0 <= i <= digits@.len(),
            out@ == q + digits@.take(i as int),
        decreases digits@.len() - i,
    {
        out.push(digits[i]);
        assert(out@ =~= q + digits@.take(i + 1));
        i = i + 1;
    }
    proof {
        lemma_decimal_digits(n as nat);
        assert(digits@.take(i as int) =~= digits@);
        assert(out@ =~= prefix@ + pad3(decimal(n as nat)));
    }
    string_from_chars(out.as_slice())
}

/// The section and story alias of each content fragment placed by the
/// reading order, keyed by the fragment's position.
pub fn ordered_content_trace_locations(model: &NativeModel) -> (r: BTreeMap<usize, ContentTraceLocation>)
    ensures
        location_map_view(r@) == trace_locations_spec(model@),
{
    let ghost m = model@;
    proof {
        assert(fragment_views(model.fragments@) == m.fragments);
        assert(container_views(model.containers@) == m.containers);
    }
    let mut locations: BTreeMap<usize, ContentTraceLocation> = BTreeMap::new();
    assert(location_map_view(locations@) =~= Map::<usize, TraceLocationView>::empty());
    let ro = match first_fragment_of_type(&model.fragments, READING_ORDER_FRAGMENT_TYPE) {
        Some(i) => i,
        None => match first_fragment_of_type(&model.fragments, DOCUMENT_DATA_FRAGMENT_TYPE) {
            Some(i) => i,
            None => {
                return locations;
            },
        },
    };
    let f = &model.fragments[ro];
    assert(m.fragments[ro as int] == f@);
    if f.container_index >= model.containers.len() {
        return locations;
    }
    let container = &model.containers[f.container_index];
    assert(m.containers[f.container_index as int] == container@);
    assert(name_map(&container.symbols.names) =~= m.containers[f.container_index as int].symbols.names);
    let ros = match struct_get(&f.value, FIELD_READING_ORDERS) {
        Some(IonValue::List(ros)) => ros,
        _ => {
            return locations;
        },
    };
    let sections = section_names_of(ros, &container.symbols.names);
    let ghost sv = string_views(sections@);
    let mut visited = StringSet::new();
    let mut placed: usize = 0;
    let mut i: usize = 0;
    while i < sections.len()
        invariant
            0 <= i <= sections@.len(),
            m == model@,
            sv == string_views(sections@),
            sv.len() == sections@.len(),
            visited.wf(),
            (visited.set(), location_map_view(locations@), placed as nat) == trace_sections_fold(m, sv.take(i as int)),
            placed <= visited.set().len(),
        decreases sections@.len() - i,
    {
        proof {
            assert(sv.take(i + 1).drop_last() =~= sv.take(i as int));
            assert(sv[i as int] == sections@[i as int]@);
        }
        let found = matching_fragments(model, SECTION_FRAGMENT_TYPE, sections[i].as_str());
        if found.len() == 1 {
            let sec = &model.fragments[found[0]];
            assert(m.fragments[found@[0] as int] == sec@);
            if sec.container_index < model.containers.len() {
                let c = &model.containers[sec.container_index];
                assert(m.containers[sec.container_index as int] == c@);
                assert(name_map(&c.symbols.names) =~= m.containers[sec.container_index as int].symbols.names);
                let mut stories: Vec<String> = Vec::new();
                assert(string_views(stories@) =~= Seq::<Seq<char>>::empty());
                collect_story_names(&sec.value, &c.symbols.names, &mut stories);
                let ghost st = string_views(stories@);
                let ghost start = (visited.set(), location_map_view(locations@), placed as nat);
                let order: usize = i + 1;
                let mut j: usize = 0;
                while j < stories.len()
                    invariant
                        0 <= j <= stories@.len(),
                        m == model@,
                        st == string_views(stories@),
                        st.len() == stories@.len(),
                        visited.wf(),
                        (visited.set(), location_map_view(locations@), placed as nat) == trace_stories_fold(m, i as nat, start, st.take(j as int)),
                        order == i + 1,
                        placed <= visited.set().len(),
                    decreases stories@.len() - j,
                {
                    proof {
                        assert(st.take(j + 1).drop_last() =~= st.take(j as int));
                        assert(st[j as int] == stories@[j as int]@);
                    }
                    if !visited.contains(stories[j].as_str()) {
                        let ghost before = visited.set();
                        proof {
                            vstd::seq_lib::seq_to_set_is_finite(visited.elems());
                        }
                        visited.insert_str(stories[j].as_str());
                        let size = visited.len();
                        assert(visited.set().len() == before.len() + 1);
                        let hits = matching_fragments(model, STORY_FRAGMENT_TYPE, stories[j].as_str());
                        if hits.len() == 1 {
                            let loc = ContentTraceLocation {
                                section_id: Some(alias("S", order)),
                                story_id: Some(alias("ST", placed + 1)),
                            };
                            proof {
                                reveal_strlit("S");
                                reveal_strlit("ST");
                            }
                            locations.insert(hits[0], loc);
                            placed = placed + 1;
                        }
                    }
                    j = j + 1;
                }
                assert(st.take(j as int) =~= st);
            }
        }
        i = i + 1;
    }
    assert(sv.take(i as int) =~= sv);
    locations
}

/// Every position in `s` is that of a content (story) fragment.
pub open spec fn all_stories(m: NativeModelView, s: Seq<usize>) -> bool {
    forall|k: int| 0 <= k < s.len() ==> (#[trigger] s[k]) < m.fragments.len()
        && m.fragments[s[k] as int].fragment_type == STORY_FRAGMENT_TYPE
}

proof fn lemma_typed_matches_typed(fs: Seq<FragmentView>, cs: Seq<ContainerOwnedView>, t: u32, name: Seq<char>)
    requires
        fs.len() <= usize::MAX,
    ensures
        forall|k: int| 0 <= k < typed_matches(fs, cs, t, name).len() ==> (#[trigger] typed_matches(fs, cs, t, name)[k]) < fs.len()
            && fs[typed_matches(fs, cs, t, name)[k] as int].fragment_type == t,
    decreases fs.len(),
{
    if fs.len() > 0 {
        let prev = typed_matches(fs.drop_last(), cs, t, name);
        lemma_typed_matches_typed(fs.drop_last(), cs, t, name);
        assert forall|k: int| 0 <= k < typed_matches(fs, cs, t, name).len() implies (#[trigger] typed_matches(fs, cs, t, name)[k]) < fs.len()
            && fs[typed_matches(fs, cs, t, name)[k] as int].fragment_type == t by {
            if k < prev.len() {
                assert(typed_matches(fs, cs, t, name)[k] == prev[k]);
                assert(fs.drop_last()[prev[k] as int] == fs[prev[k] as int]);
            } else {
                assert(k == prev.len());
            }
        }
    }
}

proof fn lemma_stories_fold_stories(m: NativeModelView, state: (Set<Seq<char>>, Seq<usize>), stories: Seq<Seq<char>>)
    requires
        m.fragments.len() <= usize::MAX,
        all_stories(m, state.1),
    ensures
        all_stories(m, stories_fold(m, state, stories).1),
    decreases stories.len(),
{
    if stories.len() > 0 {
        lemma_stories_fold_stories(m, state, stories.drop_last());
        let prior = stories_fold(m, state, stories.drop_last());
        lemma_typed_matches_typed(m.fragments, m.containers, STORY_FRAGMENT_TYPE, stories.last());
        let found = typed_matches(m.fragments, m.containers, STORY_FRAGMENT_TYPE, stories.last());
        if !prior.0.contains(stories.last()) && found.len() == 1 {
            let out = prior.1.push(found[0]);
            assert forall|k: int| 0 <= k < out.len() implies (#[trigger] out[k]) < m.fragments.len()
                && m.fragments[out[k] as int].fragment_type == STORY_FRAGMENT_TYPE by {
                if k < prior.1.len() {
                    assert(out[k] == prior.1[k]);
                }
            }
        }
    }
}

proof fn lemma_sections_fold_stories(m: NativeModelView, sections: Seq<Seq<char>>)
    requires
        m.fragments.len() <= usize::MAX,
    ensures
        all_stories(m, sections_fold(m, sections).1),
    decreases sections.len(),
{
    if sections.len() > 0 {
        lemma_sections_fold_stories(m, sections.drop_last());
        let prior = sections_fold(m, sections.drop_last());
        let found = typed_matches(m.fragments, m.containers, SECTION_FRAGMENT_TYPE, sections.last());
        if found.len() == 1 {
            lemma_typed_matches_typed(m.fragments, m.containers, SECTION_FRAGMENT_TYPE, sections.last());
            let f = m.fragments[found[0] as int];
            if f.container_index < m.containers.len() {
                lemma_stories_fold_stories(m, prior, stories_walk(Seq::empty(), f.value, m.containers[f.container_index as int].symbols.names));
            }
        }
    }
}

/// The reading order lists content fragments only: every position it gives
/// is that of a story (`$259`) fragment of the book.
pub proof fn lemma_reading_order_lists_stories(m: NativeModelView)
    requires
        m.fragments.len() <= usize::MAX,
    ensures
        ordered_content_spec(m) matches Some(v) ==> all_stories(m, v),
{
    match reading_order_index(m.fragments) {
        None => {},
        Some(i) => {
            let f = m.fragments[i];
            if f.container_index < m.containers.len() {
                match field_of(f.value, FIELD_READING_ORDERS) {
                    Some(IonModel::List(ros)) => {
                        lemma_sections_fold_stories(m, section_names(ros, m.containers[f.container_index as int].symbols.names));
                    },
                    _ => {},
                }
            }
        },
    }
}

} // verus!
