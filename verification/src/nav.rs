//! Navigation (`$389` fragments): the table of contents and heading
//! navigation of a KFX book.
//!
//! A navigation fragment lists `$391` containers under `$392`; a container
//! has a type (`$235`) and units (`$393`) under `$247`. Containers and units
//! may be inline values or symbols that name another fragment of the same
//! container. Older producers put plain entries (label `$241`/`$244`,
//! target `$246`) directly under `$392`.
//!
//! Symbol references can form cycles, so the walk carries a depth budget
//! ([`NAV_DEPTH_LIMIT`]) and stops following references once it is spent.
use vstd::prelude::*;
use crate::decode::{container_symbol_name, opt_string_view};
use crate::ion::{IonModel, IonValue, models, lemma_models_index};
use crate::native::{
    ContainerOwnedView, FragmentView, NativeContainerOwned, NativeFragment, NavPointDraft, NavView,
    container_views, fragment_views, nav_views, lemma_nav_views_push, lemma_nav_views_append, copy_string,
};
use crate::text::{chars_of, string_from_chars, trim, trim_chars, str_eq, owned, decimal, decimal_string, join2};
use crate::content::{sat, sat_plus, lemma_sat_plus_twice};
use crate::strset::StringSet;
use crate::native::strs;
use crate::ion::lemma_models_push;
use crate::value::{
    as_int, as_string, field_of, int_field, int_field_of, int_of, string_of, struct_get,
    symbol_field, symbol_field_of, copy_value, opt_model,
};

verus! {

pub const FIELD_FRAGMENT_TARGET: u64 = 246;
pub const FIELD_FRAGMENT_LABEL: u64 = 244;
pub const FIELD_NAV_TARGET_ID: u64 = 155;
pub const FIELD_NAVIGATION_TYPE: u64 = 235;
pub const FIELD_NAVIGATION_LANDMARK_TYPE: u64 = 238;
pub const FIELD_NAVIGATION_ROOT: u64 = 392;
pub const FIELD_NAVIGATION_LABEL: u64 = 241;
pub const FIELD_NAVIGATION_CHILDREN: u64 = 247;
pub const FIELD_NAVIGATION_ENTRY_SETS: u64 = 248;
pub const FIELD_NAVIGATION_REPRESENTATION: u64 = 241;
pub const KFX_NAVIGATION_TOC: u64 = 212;
pub const KFX_NAVIGATION_HEADINGS: u64 = 798;
pub const KFX_NAVIGATION_HEADING_LEVEL_BASE: u64 = 799;
pub const KFX_NAVIGATION_HEADING_LEVEL_MAX: u64 = 804;
pub const NAV_CONTAINER_FRAGMENT_TYPE: u32 = 391;
pub const NAV_UNIT_FRAGMENT_TYPE: u32 = 393;
/// How deep the walk follows nested units and entries.
pub const NAV_DEPTH_LIMIT: usize = 1024;

/// An optional integer that fits `u32`.
pub open spec fn to_u32(i: Option<i64>) -> Option<u32> {
    match i {
        Some(i) => if 0 <= i <= u32::MAX {
            Some(i as u32)
        } else {
            None
        },
        None => None,
    }
}

/// The position a navigation unit or entry targets: `$246` as an integer,
/// or its `$155`.
pub open spec fn nav_target(v: IonModel) -> Option<u32> {
    match field_of(v, FIELD_FRAGMENT_TARGET) {
        Some(t) => to_u32(
            match int_of(t) {
                Some(i) => Some(i),
                None => int_field(t, FIELD_NAV_TARGET_ID),
            },
        ),
        None => None,
    }
}

pub fn navigation_target(value: &IonValue) -> (r: Option<u32>)
    ensures
        r == nav_target(value@),
{
    let target = match struct_get(value, FIELD_FRAGMENT_TARGET) {
        Some(t) => t,
        None => {
            return None;
        },
    };
    let i = match as_int(target) {
        Some(i) => Some(i),
        None => int_field_of(target, FIELD_NAV_TARGET_ID),
    };
    match i {
        Some(i) => if i >= 0 && i <= 0xffff_ffff {
            Some(i as u32)
        } else {
            None
        },
        None => None,
    }
}

/// The heading level a heading-navigation unit declares (`$238` = 799..804
/// gives 1..6).
pub open spec fn nav_heading_level(v: IonModel) -> Option<u8> {
    match symbol_field(v, FIELD_NAVIGATION_LANDMARK_TYPE) {
        Some(s) => if KFX_NAVIGATION_HEADING_LEVEL_BASE <= s <= KFX_NAVIGATION_HEADING_LEVEL_MAX {
            Some((s - KFX_NAVIGATION_HEADING_LEVEL_BASE + 1) as u8)
        } else {
            None
        },
        None => None,
    }
}

pub fn navigation_heading_level(value: &IonValue) -> (r: Option<u8>)
    ensures
        r == nav_heading_level(value@),
{
    match symbol_field_of(value, FIELD_NAVIGATION_LANDMARK_TYPE) {
        Some(s) => if KFX_NAVIGATION_HEADING_LEVEL_BASE <= s && s <= KFX_NAVIGATION_HEADING_LEVEL_MAX {
            Some((s - KFX_NAVIGATION_HEADING_LEVEL_BASE + 1) as u8)
        } else {
            None
        },
        None => None,
    }
}

/// A heading-navigation unit whose `$238` is the `k`-th heading symbol
/// (`$799` for the first) has heading level `k`: `$799` is a level-1
/// heading and the level grows with the symbol.
pub proof fn lemma_heading_symbol_gives_level(v: IonModel, k: int)
    requires
        1 <= k <= 6,
        symbol_field(v, FIELD_NAVIGATION_LANDMARK_TYPE) == Some((798 + k) as u64),
    ensures
        nav_heading_level(v) == Some(k as u8),
{
}

/// Only the six heading symbols give a level, always one to six; a unit
/// without a `$238` symbol, or with another symbol, has none.
pub proof fn lemma_heading_level_range(v: IonModel)
    ensures
        nav_heading_level(v) is Some <==> (symbol_field(v, FIELD_NAVIGATION_LANDMARK_TYPE) matches Some(s) && 799 <= s <= 804),
        nav_heading_level(v) matches Some(l) ==> 1 <= l <= 6,
{
}

/// A later heading symbol never gives a higher (smaller) level.
pub proof fn lemma_heading_level_grows_with_symbol(a: IonModel, b: IonModel)
    requires
        nav_heading_level(a) is Some,
        nav_heading_level(b) is Some,
        symbol_field(a, FIELD_NAVIGATION_LANDMARK_TYPE)->Some_0 < symbol_field(b, FIELD_NAVIGATION_LANDMARK_TYPE)->Some_0,
    ensures
        nav_heading_level(a)->Some_0 < nav_heading_level(b)->Some_0,
{
}

/// The value of field `id` of the first struct met at the top of `m`,
/// looking through lists and annotations.
pub open spec fn top_field(m: IonModel, id: u64) -> Option<IonModel>
    decreases m,
{
    match m {
        IonModel::Struct(_) => field_of(m, id),
        IonModel::List(items) => top_field_items(items, id),
        IonModel::SExp(items) => top_field_items(items, id),
        IonModel::Annotation { value, .. } => top_field(*value, id),
        _ => None,
    }
}

pub open spec fn top_field_items(s: Seq<IonModel>, id: u64) -> Option<IonModel>
    decreases s,
{
    if s.len() == 0 {
        None
    } else {
        match top_field_items(s.drop_last(), id) {
            Some(v) => Some(v),
            None => top_field(s.last(), id),
        }
    }
}

pub fn top_level_struct_field(value: &IonValue, field_id: u64) -> (r: Option<&IonValue>)
    ensures
        opt_model(r) == top_field(value@, field_id),
    decreases value,
{
    match value {
        IonValue::Struct(_) => struct_get(value, field_id),
        IonValue::List(items) => top_field_in_items(items, field_id),
        IonValue::SExp(items) => top_field_in_items(items, field_id),
        IonValue::Annotation { value: inner, .. } => top_level_struct_field(inner, field_id),
        _ => None,
    }
}

fn top_field_in_items(items: &Vec<IonValue>, field_id: u64) -> (r: Option<&IonValue>)
    ensures
        opt_model(r) == top_field_items(models(items@), field_id),
    decreases items,
{
    let ghost ms = models(items@);
    proof {
        lemma_models_index(items@);
    }
    let mut found: Option<&IonValue> = None;
    let mut i: usize = 0;
    while i < items.len()
        invariant
            0 <= i <= items@.len(),
            ms == models(items@),
            ms.len() == items@.len(),
            forall|k: int| 0 <= k < items@.len() ==> #[trigger] ms[k] == items@[k]@,
            opt_model(found) == top_field_items(ms.subrange(0, i as int), field_id),
        decreases items@.len() - i,
    {
        assert(decreases_to!(items => items@[i as int]));
        assert(ms.subrange(0, i + 1).drop_last() =~= ms.subrange(0, i as int));
        if found.is_none() {
            found = top_level_struct_field(&items[i], field_id);
        }
        i = i + 1;
    }
    assert(ms.subrange(0, ms.len() as int) =~= ms);
    found
}

// ---------------------------------------------------------------------------
// Resolving symbol references to fragments.
// ---------------------------------------------------------------------------

/// The fid of a fragment: the name its entity id has in its container.
pub open spec fn fragment_fid(containers: Seq<ContainerOwnedView>, f: FragmentView) -> Option<Seq<char>> {
    container_symbol_name(containers, f.container_index, f.entity_id as u64)
}

/// The fid of a fragment, resolved through its container's symbols.
pub fn resolved_fragment_fid(containers: &Vec<NativeContainerOwned>, fragment: &NativeFragment) -> (r: Option<String>)
    ensures
        opt_string_view(r) == fragment_fid(container_views(containers@), fragment@),
{
    let ci = fragment.container_index;
    if ci < containers.len() {
        let ghost cv = container_views(containers@);
        assert(cv[ci as int] == containers@[ci as int]@);
        match containers[ci].symbols.names.get(&(fragment.entity_id as u64)) {
            Some(name) => Some(copy_string(name)),
            None => None,
        }
    } else {
        None
    }
}

/// The value of the first fragment of container `ci` and type `t` whose
/// fid is `fid`.
pub open spec fn fragment_named(
    containers: Seq<ContainerOwnedView>,
    frags: Seq<FragmentView>,
    ci: usize,
    t: u32,
    fid: Seq<char>,
) -> Option<IonModel>
    decreases frags.len(),
{
    if frags.len() == 0 {
        None
    } else if frags[0].container_index == ci && frags[0].fragment_type == t && fragment_fid(containers, frags[0])
        == Some(fid) {
        Some(frags[0].value)
    } else {
        fragment_named(containers, frags.drop_first(), ci, t, fid)
    }
}

/// A navigation value: an inline struct (or annotated value), or a symbol
/// naming a fragment of the expected type in the same container.
pub open spec fn nav_value(
    containers: Seq<ContainerOwnedView>,
    frags: Seq<FragmentView>,
    ci: usize,
    v: IonModel,
    t: u32,
) -> Option<IonModel> {
    match v {
        IonModel::Struct(_) => Some(v),
        IonModel::Annotation { .. } => Some(v),
        IonModel::Symbol(sym) => match container_symbol_name(containers, ci, sym) {
            Some(fid) => fragment_named(containers, frags, ci, t, fid),
            None => None,
        },
        _ => None,
    }
}

pub open spec fn opt_owned_model(r: Option<IonValue>) -> Option<IonModel> {
    match r {
        Some(v) => Some(v@),
        None => None,
    }
}

proof fn lemma_fragment_named_skip(
    containers: Seq<ContainerOwnedView>,
    frags: Seq<FragmentView>,
    ci: usize,
    t: u32,
    fid: Seq<char>,
    i: int,
)
    requires
        0 <= i <= frags.len(),
        forall|k: int| 0 <= k < i ==> !(#[trigger] frags[k].container_index == ci && frags[k].fragment_type == t
            && fragment_fid(containers, frags[k]) == Some(fid)),
    ensures
        fragment_named(containers, frags, ci, t, fid) == fragment_named(containers, frags.subrange(i, frags.len() as int), ci, t, fid),
    decreases i,
{
    if i > 0 {
        let g = frags.drop_first();
        assert forall|k: int| 0 <= k < i - 1 implies !(#[trigger] g[k].container_index == ci && g[k].fragment_type == t
            && fragment_fid(containers, g[k]) == Some(fid)) by {
            assert(g[k] == frags[k + 1]);
        }
        lemma_fragment_named_skip(containers, g, ci, t, fid, i - 1);
        assert(g.subrange(i - 1, g.len() as int) =~= frags.subrange(i, frags.len() as int));
    } else {
        assert(frags.subrange(0, frags.len() as int) =~= frags);
    }
}

/// Resolves a navigation value (inline, or a symbol naming a fragment of
/// type `expected_type` in container `ci`) to a copy of its value.
pub fn navigation_fragment_value(
    containers: &Vec<NativeContainerOwned>,
    fragments: &Vec<NativeFragment>,
    container_index: usize,
    value: &IonValue,
    expected_type: u32,
) -> (r: Option<IonValue>)
    ensures
        opt_owned_model(r) == nav_value(
            container_views(containers@),
            fragment_views(fragments@),
            container_index,
            value@,
            expected_type,
        ),
{
    let sym = match value {
        IonValue::Struct(_) => {
            return Some(copy_value(value));
        },
        IonValue::Annotation { .. } => {
            return Some(copy_value(value));
        },
        IonValue::Symbol(s) => *s,
        _ => {
            return None;
        },
    };
    let ghost cv = container_views(containers@);
    let ghost fv = fragment_views(fragments@);
    let fid = match crate::decode::symbol_name_of(containers, container_index, sym) {
        Some(f) => f,
        None => {
            return None;
        },
    };
    let mut i: usize = 0;
    while i < fragments.len()
        invariant
            0 <= i <= fragments@.len(),
            cv == container_views(containers@),
            fv == fragment_views(fragments@),
            fv.len() == fragments@.len(),
            value@ == IonModel::Symbol(sym),
            container_symbol_name(cv, container_index, sym) == Some(fid@),
            forall|k: int| 0 <= k < i ==> !(#[trigger] fv[k].container_index == container_index && fv[k].fragment_type
                == expected_type && fragment_fid(cv, fv[k]) == Some(fid@)),
        decreases fragments@.len() - i,
    {
        let f = &fragments[i];
        assert(fv[i as int] == f@);
        if f.container_index == container_index && f.fragment_type == expected_type {
            let name = resolved_fragment_fid(containers, f);
            let same = match &name {
                Some(n) => str_eq(n.as_str(), fid.as_str()),
                None => false,
            };
            if same {
                proof {
                    lemma_fragment_named_skip(cv, fv, container_index, expected_type, fid@, i as int);
                    assert(fv.subrange(i as int, fv.len() as int)[0] == fv[i as int]);
                }
                return Some(copy_value(&f.value));
            }
        }
        i = i + 1;
    }
    proof {
        lemma_fragment_named_skip(cv, fv, container_index, expected_type, fid@, i as int);
    }
    None
}

proof fn lemma_models_append(a: Seq<IonValue>, b: Seq<IonValue>)
    ensures
        models(a + b) == models(a) + models(b),
    decreases b.len(),
{
    if b.len() == 0 {
        assert(a + b =~= a);
        assert(models(a) + models(b) =~= models(a));
    } else {
        let b0 = b.drop_last();
        lemma_models_append(a, b0);
        assert((a + b).subrange(0, (a + b).len() - 1) =~= a + b0);
        assert(models(a) + models(b) =~= (models(a) + models(b0)).push(b.last().model()));
    }
}

// ---------------------------------------------------------------------------
// Units of a navigation container.
// ---------------------------------------------------------------------------

/// The units a list of child references resolves to, and how many did not
/// resolve.
pub open spec fn resolve_units(
    containers: Seq<ContainerOwnedView>,
    frags: Seq<FragmentView>,
    ci: usize,
    cs: Seq<IonModel>,
) -> (Seq<IonModel>, nat)
    decreases cs.len(),
{
    if cs.len() == 0 {
        (Seq::empty(), 0)
    } else {
        let (a, m) = resolve_units(containers, frags, ci, cs.drop_last());
        match nav_value(containers, frags, ci, cs.last(), NAV_UNIT_FRAGMENT_TYPE) {
            Some(u) => (a.push(u), m),
            None => (a, m + 1),
        }
    }
}

/// The child units of a unit: its `$247` references, then those of each
/// `$248` entry set; with the number of malformed children.
pub open spec fn unit_values(
    containers: Seq<ContainerOwnedView>,
    frags: Seq<FragmentView>,
    ci: usize,
    v: IonModel,
    fuel: nat,
) -> (Seq<IonModel>, nat)
    decreases fuel, 0nat,
{
    if fuel == 0 {
        (Seq::empty(), 0)
    } else {
        match field_of(v, FIELD_NAVIGATION_CHILDREN) {
            None => (Seq::empty(), 0),
            Some(IonModel::List(cs)) => {
                let (a, m1) = resolve_units(containers, frags, ci, cs);
                let (b, m2) = match field_of(v, FIELD_NAVIGATION_ENTRY_SETS) {
                    Some(IonModel::List(sets)) => unit_values_sets(containers, frags, ci, sets, (fuel - 1) as nat),
                    _ => (Seq::empty(), 0),
                };
                (a + b, m1 + m2)
            },
            Some(_) => (Seq::empty(), 1),
        }
    }
}

pub open spec fn unit_values_sets(
    containers: Seq<ContainerOwnedView>,
    frags: Seq<FragmentView>,
    ci: usize,
    sets: Seq<IonModel>,
    fuel: nat,
) -> (Seq<IonModel>, nat)
    decreases fuel, sets.len(),
{
    if sets.len() == 0 {
        (Seq::empty(), 0)
    } else {
        let (a, m) = unit_values_sets(containers, frags, ci, sets.drop_last(), fuel);
        let (b, n) = unit_values(containers, frags, ci, sets.last(), fuel);
        (a + b, m + n)
    }
}

/// Collects the child units of a navigation unit, counting the children
/// that are malformed (saturating).
pub fn navigation_unit_values(
    containers: &Vec<NativeContainerOwned>,
    fragments: &Vec<NativeFragment>,
    container_index: usize,
    value: &IonValue,
    malformed: &mut usize,
    fuel: usize,
) -> (r: Vec<IonValue>)
    ensures
        models(r@) == unit_values(container_views(containers@), fragment_views(fragments@), container_index, value@, fuel as nat).0,
        *final(malformed) == sat_plus(
            *old(malformed),
            unit_values(container_views(containers@), fragment_views(fragments@), container_index, value@, fuel as nat).1,
        ),
    decreases fuel, 0nat,
{
    let ghost cv = container_views(containers@);
    let ghost fv = fragment_views(fragments@);
    let mut values: Vec<IonValue> = Vec::new();
    if fuel == 0 {
        assert(models(values@) =~= Seq::<IonModel>::empty());
        return values;
    }
    let children = match struct_get(value, FIELD_NAVIGATION_CHILDREN) {
        Some(c) => c,
        None => {
            assert(models(values@) =~= Seq::<IonModel>::empty());
            return values;
        },
    };
    let children = match children {
        IonValue::List(cs) => cs,
        _ => {
            *malformed = malformed.saturating_add(1);
            assert(models(values@) =~= Seq::<IonModel>::empty());
            return values;
        },
    };
    let ghost ms = models(children@);
    let ghost m0 = *malformed;
    proof {
        lemma_models_index(children@);
        assert(models(values@) =~= Seq::<IonModel>::empty());
    }
    let mut i: usize = 0;
    while i < children.len()
        invariant
            0 <= i <= children@.len(),
            cv == container_views(containers@),
            fv == fragment_views(fragments@),
            ms == models(children@),
            ms.len() == children@.len(),
            forall|k: int| 0 <= k < children@.len() ==> #[trigger] ms[k] == children@[k]@,
            models(values@) == resolve_units(cv, fv, container_index, ms.subrange(0, i as int)).0,
            *malformed == sat_plus(m0, resolve_units(cv, fv, container_index, ms.subrange(0, i as int)).1),
        decreases children@.len() - i,
    {
        assert(ms.subrange(0, i + 1).drop_last() =~= ms.subrange(0, i as int));
        match navigation_fragment_value(containers, fragments, container_index, &children[i], NAV_UNIT_FRAGMENT_TYPE) {
            Some(v) => {
                proof {
                    lemma_models_push(values@, v);
                }
                values.push(v);
            },
            None => {
                proof {
                    lemma_sat_plus_twice(m0, resolve_units(cv, fv, container_index, ms.subrange(0, i as int)).1, 1);
                }
                *malformed = malformed.saturating_add(1);
            },
        }
        i = i + 1;
    }
    assert(ms.subrange(0, ms.len() as int) =~= ms);
    let ghost a = resolve_units(cv, fv, container_index, ms);
    let ghost m1 = *malformed;
    match struct_get(value, FIELD_NAVIGATION_ENTRY_SETS) {
        Some(IonValue::List(sets)) => {
            let mut more = collect_unit_values_sets(containers, fragments, container_index, sets, malformed, fuel - 1);
            let ghost before = values@;
            let ghost more_v = more@;
            values.append(&mut more);
            proof {
                lemma_models_append(before, more_v);
                lemma_sat_plus_twice(m0, a.1, unit_values_sets(cv, fv, container_index, models(sets@), (fuel - 1) as nat).1);
            }
        },
        _ => {
            assert(models(values@) + Seq::<IonModel>::empty() =~= models(values@));
        },
    }
    values
}

fn collect_unit_values_sets(
    containers: &Vec<NativeContainerOwned>,
    fragments: &Vec<NativeFragment>,
    container_index: usize,
    sets: &Vec<IonValue>,
    malformed: &mut usize,
    fuel: usize,
) -> (r: Vec<IonValue>)
    ensures
        models(r@) == unit_values_sets(container_views(containers@), fragment_views(fragments@), container_index, models(sets@), fuel as nat).0,
        *final(malformed) == sat_plus(
            *old(malformed),
            unit_values_sets(container_views(containers@), fragment_views(fragments@), container_index, models(sets@), fuel as nat).1,
        ),
    decreases fuel, sets@.len(),
{
    let ghost cv = container_views(containers@);
    let ghost fv = fragment_views(fragments@);
    let ghost ms = models(sets@);
    let ghost m0 = *malformed;
    proof {
        lemma_models_index(sets@);
    }
    let mut values: Vec<IonValue> = Vec::new();
    assert(models(values@) =~= Seq::<IonModel>::empty());
    let mut i: usize = 0;
    while i < sets.len()
        invariant
            0 <= i <= sets@.len(),
            cv == container_views(containers@),
            fv == fragment_views(fragments@),
            ms == models(sets@),
            ms.len() == sets@.len(),
            forall|k: int| 0 <= k < sets@.len() ==> #[trigger] ms[k] == sets@[k]@,
            models(values@) == unit_values_sets(cv, fv, container_index, ms.subrange(0, i as int), fuel as nat).0,
            *malformed == sat_plus(m0, unit_values_sets(cv, fv, container_index, ms.subrange(0, i as int), fuel as nat).1),
        decreases sets@.len() - i,
    {
        assert(ms.subrange(0, i + 1).drop_last() =~= ms.subrange(0, i as int));
        let ghost prev = unit_values_sets(cv, fv, container_index, ms.subrange(0, i as int), fuel as nat);
        let mut more = navigation_unit_values(containers, fragments, container_index, &sets[i], malformed, fuel);
        let ghost before = values@;
        let ghost more_v = more@;
        values.append(&mut more);
        proof {
            lemma_models_append(before, more_v);
            lemma_sat_plus_twice(m0, prev.1, unit_values(cv, fv, container_index, ms[i as int], fuel as nat).1);
        }
        i = i + 1;
    }
    assert(ms.subrange(0, ms.len() as int) =~= ms);
    values
}

// ---------------------------------------------------------------------------
// Navigation points from units.
// ---------------------------------------------------------------------------

/// A heading level one deeper, up to 6.
pub open spec fn next_level(l: Option<u8>) -> Option<u8> {
    match l {
        Some(x) => if x < 6 {
            Some((x + 1) as u8)
        } else {
            None
        },
        None => None,
    }
}

/// The trimmed label of a unit (`$241` representation, `$244` label), or
/// the empty string.
pub open spec fn unit_label(unit: IonModel) -> Seq<char> {
    match field_of(unit, FIELD_NAVIGATION_REPRESENTATION) {
        Some(rep) => match field_of(rep, FIELD_FRAGMENT_LABEL) {
            Some(l) => match string_of(l) {
                Some(s) => trim(s),
                None => Seq::empty(),
            },
            None => Seq::empty(),
        },
        None => Seq::empty(),
    }
}

/// The raw units of a value: its `$247` list, or the value itself when it
/// is a list.
pub open spec fn raw_units(v: IonModel) -> Option<Seq<IonModel>> {
    match field_of(v, FIELD_NAVIGATION_CHILDREN) {
        Some(IonModel::List(vs)) => Some(vs),
        _ => match v {
            IonModel::List(vs) => Some(vs),
            _ => None,
        },
    }
}

/// The navigation points of the units of `v`, with the number of malformed
/// units. Heading navigation (type 798) gives each point its declared level
/// or the inherited one; children inherit one level deeper.
pub open spec fn parse_units(
    containers: Seq<ContainerOwnedView>,
    frags: Seq<FragmentView>,
    ci: usize,
    v: IonModel,
    nav_type: u64,
    inherited: Option<u8>,
    fuel: nat,
) -> (Seq<NavView>, nat)
    decreases fuel, 2nat, 0nat,
{
    if fuel == 0 {
        (Seq::empty(), 0)
    } else {
        match raw_units(v) {
            None => (Seq::empty(), 1),
            Some(raw) => units_fold(containers, frags, ci, raw, nav_type, inherited, fuel),
        }
    }
}

pub open spec fn units_fold(
    containers: Seq<ContainerOwnedView>,
    frags: Seq<FragmentView>,
    ci: usize,
    raw: Seq<IonModel>,
    nav_type: u64,
    inherited: Option<u8>,
    fuel: nat,
) -> (Seq<NavView>, nat)
    decreases fuel, 1nat, raw.len(),
{
    if raw.len() == 0 {
        (Seq::empty(), 0)
    } else {
        let (a, m) = units_fold(containers, frags, ci, raw.drop_last(), nav_type, inherited, fuel);
        let (b, n) = unit_step(containers, frags, ci, raw.last(), nav_type, inherited, fuel);
        (a + b, m + n)
    }
}

pub open spec fn unit_step(
    containers: Seq<ContainerOwnedView>,
    frags: Seq<FragmentView>,
    ci: usize,
    raw_unit: IonModel,
    nav_type: u64,
    inherited: Option<u8>,
    fuel: nat,
) -> (Seq<NavView>, nat)
    decreases fuel, 0nat, 0nat,
{
    if fuel == 0 {
        (Seq::empty(), 0)
    } else {
        match nav_value(containers, frags, ci, raw_unit, NAV_UNIT_FRAGMENT_TYPE) {
            None => (Seq::empty(), 1),
            Some(unit) => {
                let explicit = nav_heading_level(unit);
                let level = if nav_type == KFX_NAVIGATION_HEADINGS {
                    if explicit is Some { explicit } else { inherited }
                } else {
                    None
                };
                let next = if nav_type == KFX_NAVIGATION_HEADINGS {
                    if explicit is Some { explicit } else { next_level(level) }
                } else {
                    next_level(inherited)
                };
                let (children, m1) = unit_values(containers, frags, ci, unit, (fuel - 1) as nat);
                let (points, m2) = if children.len() == 0 {
                    (Seq::empty(), 0)
                } else {
                    parse_units(containers, frags, ci, IonModel::List(children), nav_type, next, (fuel - 1) as nat)
                };
                match nav_target(unit) {
                    Some(t) => (
                        seq![NavView { label: unit_label(unit), target: t, heading_level: level, children: points }],
                        m1 + m2,
                    ),
                    None => (points, m1 + m2 + 1),
                }
            },
        }
    }
}

fn unit_label_of(unit: &IonValue) -> (r: String)
    ensures
        r@ == unit_label(unit@),
{
    match struct_get(unit, FIELD_NAVIGATION_REPRESENTATION) {
        Some(rep) => match struct_get(rep, FIELD_FRAGMENT_LABEL) {
            Some(l) => match as_string(l) {
                Some(s) => {
                    let chars = chars_of(s);
                    let t = trim_chars(chars.as_slice());
                    string_from_chars(t.as_slice())
                },
                None => String::new(),
            },
            None => String::new(),
        },
        None => String::new(),
    }
}

fn next_heading_level(l: Option<u8>) -> (r: Option<u8>)
    ensures
        r == next_level(l),
{
    match l {
        Some(x) => if x < 6 {
            Some(x + 1)
        } else {
            None
        },
        None => None,
    }
}

/// Reads the navigation points of the units of `value`, counting malformed
/// units (saturating).
pub fn parse_navigation_units(
    containers: &Vec<NativeContainerOwned>,
    fragments: &Vec<NativeFragment>,
    container_index: usize,
    value: &IonValue,
    nav_type: u64,
    inherited_heading_level: Option<u8>,
    malformed: &mut usize,
    fuel: usize,
) -> (r: Vec<NavPointDraft>)
    ensures
        nav_views(r@) == parse_units(container_views(containers@), fragment_views(fragments@), container_index, value@, nav_type, inherited_heading_level, fuel as nat).0,
        *final(malformed) == sat_plus(
            *old(malformed),
            parse_units(container_views(containers@), fragment_views(fragments@), container_index, value@, nav_type, inherited_heading_level, fuel as nat).1,
        ),
    decreases fuel, 1nat,
{
    let ghost cv = container_views(containers@);
    let ghost fv = fragment_views(fragments@);
    let mut output: Vec<NavPointDraft> = Vec::new();
    assert(nav_views(output@) =~= Seq::<NavView>::empty());
    if fuel == 0 {
        return output;
    }
    let raw: &Vec<IonValue> = match struct_get(value, FIELD_NAVIGATION_CHILDREN) {
        Some(IonValue::List(vs)) => vs,
        _ => match value {
            IonValue::List(vs) => vs,
            _ => {
                *malformed = malformed.saturating_add(1);
                return output;
            },
        },
    };
    let ghost ms = models(raw@);
    let ghost m0 = *malformed;
    proof {
        lemma_models_index(raw@);
    }
    let mut i: usize = 0;
    while i < raw.len()
        invariant
            0 < fuel,
            0 <= i <= raw@.len(),
            cv == container_views(containers@),
            fv == fragment_views(fragments@),
            ms == models(raw@),
            ms.len() == raw@.len(),
            raw_units(value@) == Some(ms),
            forall|k: int| 0 <= k < raw@.len() ==> #[trigger] ms[k] == raw@[k]@,
            nav_views(output@) == units_fold(cv, fv, container_index, ms.subrange(0, i as int), nav_type, inherited_heading_level, fuel as nat).0,
            *malformed == sat_plus(m0, units_fold(cv, fv, container_index, ms.subrange(0, i as int), nav_type, inherited_heading_level, fuel as nat).1),
        decreases raw@.len() - i,
    {
        assert(ms.subrange(0, i + 1).drop_last() =~= ms.subrange(0, i as int));
        let ghost prev = units_fold(cv, fv, container_index, ms.subrange(0, i as int), nav_type, inherited_heading_level, fuel as nat);
        let mut points = navigation_unit_step(containers, fragments, container_index, &raw[i], nav_type, inherited_heading_level, malformed, fuel);
        let ghost before = output@;
        let ghost pv = points@;
        output.append(&mut points);
        proof {
            lemma_nav_views_append(before, pv);
            lemma_sat_plus_twice(m0, prev.1, unit_step(cv, fv, container_index, ms[i as int], nav_type, inherited_heading_level, fuel as nat).1);
        }
        i = i + 1;
    }
    assert(ms.subrange(0, ms.len() as int) =~= ms);
    output
}

fn navigation_unit_step(
    containers: &Vec<NativeContainerOwned>,
    fragments: &Vec<NativeFragment>,
    container_index: usize,
    raw_unit: &IonValue,
    nav_type: u64,
    inherited_heading_level: Option<u8>,
    malformed: &mut usize,
    fuel: usize,
) -> (r: Vec<NavPointDraft>)
    ensures
        nav_views(r@) == unit_step(container_views(containers@), fragment_views(fragments@), container_index, raw_unit@, nav_type, inherited_heading_level, fuel as nat).0,
        *final(malformed) == sat_plus(
            *old(malformed),
            unit_step(container_views(containers@), fragment_views(fragments@), container_index, raw_unit@, nav_type, inherited_heading_level, fuel as nat).1,
        ),
    decreases fuel, 0nat,
{
    let ghost cv = container_views(containers@);
    let ghost fv = fragment_views(fragments@);
    let ghost m0 = *malformed;
    let mut output: Vec<NavPointDraft> = Vec::new();
    assert(nav_views(output@) =~= Seq::<NavView>::empty());
    if fuel == 0 {
        return output;
    }
    let unit = match navigation_fragment_value(containers, fragments, container_index, raw_unit, NAV_UNIT_FRAGMENT_TYPE) {
        Some(u) => u,
        None => {
            *malformed = malformed.saturating_add(1);
            return output;
        },
    };
    let explicit = navigation_heading_level(&unit);
    let level = if nav_type == KFX_NAVIGATION_HEADINGS {
        if explicit.is_some() { explicit } else { inherited_heading_level }
    } else {
        None
    };
    let next = if nav_type == KFX_NAVIGATION_HEADINGS {
        if explicit.is_some() { explicit } else { next_heading_level(level) }
    } else {
        next_heading_level(inherited_heading_level)
    };
    let children = navigation_unit_values(containers, fragments, container_index, &unit, malformed, fuel - 1);
    let ghost uv = unit_values(cv, fv, container_index, unit@, (fuel - 1) as nat);
    let ghost m1 = *malformed;
    let child_points = if children.len() == 0 {
        proof {
            assert(uv.0.len() == 0);
            assert(m1 == sat_plus(m1, 0));
        }
        let e: Vec<NavPointDraft> = Vec::new();
        assert(nav_views(e@) =~= Seq::<NavView>::empty());
        e
    } else {
        let synthetic = IonValue::List(children);
        let pts = parse_navigation_units(containers, fragments, container_index, &synthetic, nav_type, next, malformed, fuel - 1);
        pts
    };
    let ghost m2 = *malformed;
    let label = unit_label_of(&unit);
    match navigation_target(&unit) {
        Some(target) => {
            let point = NavPointDraft { label, target, heading_level: level, children: child_points };
            proof {
                lemma_nav_views_push(output@, point);
                let pu = if uv.0.len() == 0 { (Seq::<NavView>::empty(), 0nat) } else {
                    parse_units(cv, fv, container_index, IonModel::List(uv.0), nav_type, next, (fuel - 1) as nat)
                };
                lemma_sat_plus_twice(m0, uv.1, pu.1);
            }
            output.push(point);
        },
        None => {
            proof {
                let pu = if uv.0.len() == 0 { (Seq::<NavView>::empty(), 0nat) } else {
                    parse_units(cv, fv, container_index, IonModel::List(uv.0), nav_type, next, (fuel - 1) as nat)
                };
                lemma_sat_plus_twice(m0, uv.1, pu.1);
                lemma_sat_plus_twice(m0, uv.1 + pu.1, 1);
            }
            *malformed = malformed.saturating_add(1);
            output = child_points;
        },
    }
    output
}

// ---------------------------------------------------------------------------
// Plain navigation entries.
// ---------------------------------------------------------------------------

/// The trimmed, non-empty label of a plain entry (`$241`, then `$244`).
pub open spec fn entry_label(entry: IonModel) -> Option<Seq<char>> {
    match field_of(entry, FIELD_NAVIGATION_LABEL) {
        Some(labels) => match field_of(labels, FIELD_FRAGMENT_LABEL) {
            Some(l) => match string_of(l) {
                Some(s) => if trim(s).len() > 0 {
                    Some(trim(s))
                } else {
                    None
                },
                None => None,
            },
            None => None,
        },
        None => None,
    }
}

/// The navigation points of plain entries, with the number of malformed
/// entries. An entry with a label and a target is a point; an unlabelled,
/// untargeted group passes its children up; anything else is malformed and
/// still passes up its children.
pub open spec fn entries_fold(entries: Seq<IonModel>, fuel: nat) -> (Seq<NavView>, nat)
    decreases fuel, entries.len(),
{
    if entries.len() == 0 {
        (Seq::empty(), 0)
    } else {
        let (a, m) = entries_fold(entries.drop_last(), fuel);
        let (b, n) = entry_step(entries.last(), fuel);
        (a + b, m + n)
    }
}

pub open spec fn entry_step(entry: IonModel, fuel: nat) -> (Seq<NavView>, nat)
    decreases fuel, 0nat,
{
    let label = entry_label(entry);
    let target = nav_target(entry);
    let (children, m1) = match field_of(entry, FIELD_NAVIGATION_CHILDREN) {
        Some(IonModel::List(c)) => if fuel == 0 {
            (Seq::<NavView>::empty(), 0nat)
        } else {
            entries_fold(c, (fuel - 1) as nat)
        },
        Some(_) => (Seq::empty(), 1),
        None => (Seq::empty(), 0),
    };
    if label is Some && target is Some {
        (seq![NavView { label: label->0, target: target->0, heading_level: None, children }], m1)
    } else if field_of(entry, FIELD_NAVIGATION_CHILDREN) is Some && label is None && target is None {
        (children, m1)
    } else {
        (children, m1 + 1)
    }
}

fn entry_label_of(entry: &IonValue) -> (r: Option<String>)
    ensures
        opt_string_view(r) == entry_label(entry@),
{
    match struct_get(entry, FIELD_NAVIGATION_LABEL) {
        Some(labels) => match struct_get(labels, FIELD_FRAGMENT_LABEL) {
            Some(l) => match as_string(l) {
                Some(s) => {
                    let chars = chars_of(s);
                    let t = trim_chars(chars.as_slice());
                    if t.len() > 0 {
                        Some(string_from_chars(t.as_slice()))
                    } else {
                        None
                    }
                },
                None => None,
            },
            None => None,
        },
        None => None,
    }
}

/// Reads plain navigation entries, counting malformed ones (saturating).
pub fn parse_navigation_entries(entries: &Vec<IonValue>, malformed: &mut usize, fuel: usize) -> (r: Vec<NavPointDraft>)
    ensures
        nav_views(r@) == entries_fold(models(entries@), fuel as nat).0,
        *final(malformed) == sat_plus(*old(malformed), entries_fold(models(entries@), fuel as nat).1),
    decreases fuel, 1nat,
{
    let ghost ms = models(entries@);
    let ghost m0 = *malformed;
    proof {
        lemma_models_index(entries@);
    }
    let mut parsed: Vec<NavPointDraft> = Vec::new();
    assert(nav_views(parsed@) =~= Seq::<NavView>::empty());
    let mut i: usize = 0;
    while i < entries.len()
        invariant
            0 <= i <= entries@.len(),
            ms == models(entries@),
            ms.len() == entries@.len(),
            forall|k: int| 0 <= k < entries@.len() ==> #[trigger] ms[k] == entries@[k]@,
            nav_views(parsed@) == entries_fold(ms.subrange(0, i as int), fuel as nat).0,
            *malformed == sat_plus(m0, entries_fold(ms.subrange(0, i as int), fuel as nat).1),
        decreases entries@.len() - i,
    {
        assert(ms.subrange(0, i + 1).drop_last() =~= ms.subrange(0, i as int));
        let ghost prev = entries_fold(ms.subrange(0, i as int), fuel as nat);
        let mut points = navigation_entry_step(&entries[i], malformed, fuel);
        let ghost before = parsed@;
        let ghost pv = points@;
        parsed.append(&mut points);
        proof {
            lemma_nav_views_append(before, pv);
            lemma_sat_plus_twice(m0, prev.1, entry_step(ms[i as int], fuel as nat).1);
        }
        i = i + 1;
    }
    assert(ms.subrange(0, ms.len() as int) =~= ms);
    parsed
}

/// Reads one plain navigation entry.
pub fn navigation_entry_step(entry: &IonValue, malformed: &mut usize, fuel: usize) -> (r: Vec<NavPointDraft>)
    ensures
        nav_views(r@) == entry_step(entry@, fuel as nat).0,
        *final(malformed) == sat_plus(*old(malformed), entry_step(entry@, fuel as nat).1),
    decreases fuel, 0nat,
{
    let ghost m0 = *malformed;
    let label = entry_label_of(entry);
    let target = navigation_target(entry);
    let children_field = struct_get(entry, FIELD_NAVIGATION_CHILDREN);
    let has_children_field = children_field.is_some();
    let children: Vec<NavPointDraft> = match children_field {
        Some(IonValue::List(c)) => if fuel == 0 {
            let e: Vec<NavPointDraft> = Vec::new();
            assert(nav_views(e@) =~= Seq::<NavView>::empty());
            e
        } else {
            parse_navigation_entries(c, malformed, fuel - 1)
        },
        Some(_) => {
            *malformed = malformed.saturating_add(1);
            let e: Vec<NavPointDraft> = Vec::new();
            assert(nav_views(e@) =~= Seq::<NavView>::empty());
            e
        },
        None => {
            let e: Vec<NavPointDraft> = Vec::new();
            assert(nav_views(e@) =~= Seq::<NavView>::empty());
            e
        },
    };
    let ghost m1 = *malformed;
    match (label, target) {
        (Some(l), Some(t)) => {
            let mut out: Vec<NavPointDraft> = Vec::new();
            let point = NavPointDraft { label: l, target: t, heading_level: None, children };
            proof {
                lemma_nav_views_push(out@, point);
                assert(nav_views(out@) =~= Seq::<NavView>::empty());
            }
            out.push(point);
            out
        },
        (l, t) => {
            if has_children_field && l.is_none() && t.is_none() {
                children
            } else {
                proof {
                    lemma_sat_plus_twice(m0, (entry_step(entry@, fuel as nat).1 - 1) as nat, 1);
                }
                *malformed = malformed.saturating_add(1);
                children
            }
        },
    }
}

// ---------------------------------------------------------------------------
// Navigation fragments.
// ---------------------------------------------------------------------------

/// A navigation container of heading navigation (type 798).
pub open spec fn is_heading_container(
    containers: Seq<ContainerOwnedView>,
    frags: Seq<FragmentView>,
    ci: usize,
    e: IonModel,
) -> bool {
    match nav_value(containers, frags, ci, e, NAV_CONTAINER_FRAGMENT_TYPE) {
        Some(c) => symbol_field(c, FIELD_NAVIGATION_TYPE) == Some(KFX_NAVIGATION_HEADINGS),
        None => false,
    }
}

pub open spec fn has_heading_navigation(
    containers: Seq<ContainerOwnedView>,
    frags: Seq<FragmentView>,
    ci: usize,
    entries: Seq<IonModel>,
) -> bool {
    exists|i: int| 0 <= i < entries.len() && #[trigger] is_heading_container(containers, frags, ci, entries[i])
}

/// The points one `$392` entry contributes: the units of its container, or,
/// when it is not a typed container, the entry read as a plain entry. A
/// table of contents starts at level 1 unless the book has heading
/// navigation.
pub open spec fn nav_entry_points(
    containers: Seq<ContainerOwnedView>,
    frags: Seq<FragmentView>,
    ci: usize,
    entry: IonModel,
    has_headings: bool,
) -> (Seq<NavView>, nat) {
    match nav_value(containers, frags, ci, entry, NAV_CONTAINER_FRAGMENT_TYPE) {
        None => entry_step(entry, NAV_DEPTH_LIMIT as nat),
        Some(c) => match symbol_field(c, FIELD_NAVIGATION_TYPE) {
            None => entry_step(entry, NAV_DEPTH_LIMIT as nat),
            Some(nav_type) => match field_of(c, FIELD_NAVIGATION_CHILDREN) {
                None => (Seq::empty(), 1),
                Some(units) => parse_units(
                    containers,
                    frags,
                    ci,
                    units,
                    nav_type,
                    if nav_type == KFX_NAVIGATION_TOC && !has_headings { Some(1u8) } else { None },
                    NAV_DEPTH_LIMIT as nat,
                ),
            },
        },
    }
}

pub open spec fn nav_entries_fold(
    containers: Seq<ContainerOwnedView>,
    frags: Seq<FragmentView>,
    ci: usize,
    entries: Seq<IonModel>,
    has_headings: bool,
) -> (Seq<NavView>, nat)
    decreases entries.len(),
{
    if entries.len() == 0 {
        (Seq::empty(), 0)
    } else {
        let (a, m) = nav_entries_fold(containers, frags, ci, entries.drop_last(), has_headings);
        let (b, n) = nav_entry_points(containers, frags, ci, entries.last(), has_headings);
        (a + b, m + n)
    }
}

/// What a navigation fragment yields: `None` when it has no `$392` list,
/// else its points and the number of malformed entries.
pub open spec fn navigation_spec(
    containers: Seq<ContainerOwnedView>,
    frags: Seq<FragmentView>,
    ci: usize,
    value: IonModel,
) -> Option<(Seq<NavView>, nat)> {
    match top_field(value, FIELD_NAVIGATION_ROOT) {
        Some(IonModel::List(entries)) => Some(
            nav_entries_fold(containers, frags, ci, entries, has_heading_navigation(containers, frags, ci, entries)),
        ),
        _ => None,
    }
}

pub open spec fn shape_unsupported_message() -> Seq<char> {
    "A KFX navigation fragment did not contain the recognized navigation list."@
}

/// The navigation, features and input-loss notes after one navigation
/// fragment.
pub open spec fn navigation_apply(
    navigation: Seq<NavView>,
    features: Set<Seq<char>>,
    loss: Seq<Seq<char>>,
    outcome: Option<(Seq<NavView>, nat)>,
) -> (Seq<NavView>, Set<Seq<char>>, Seq<Seq<char>>) {
    match outcome {
        None => (
            navigation,
            features.insert("kfx-navigation-fragment-shape-unsupported"@),
            loss.push(shape_unsupported_message()),
        ),
        Some((points, malformed)) => {
            let n = sat(malformed);
            if n > 0 {
                (
                    navigation + points,
                    features.insert("kfx-navigation-entry-shape-unsupported"@),
                    loss.push(decimal(n as nat) + " malformed KFX navigation entries could not be retained."@),
                )
            } else {
                (navigation + points, features, loss)
            }
        },
    }
}

fn heading_container(
    containers: &Vec<NativeContainerOwned>,
    fragments: &Vec<NativeFragment>,
    container_index: usize,
    entry: &IonValue,
) -> (r: bool)
    ensures
        r == is_heading_container(container_views(containers@), fragment_views(fragments@), container_index, entry@),
{
    match navigation_fragment_value(containers, fragments, container_index, entry, NAV_CONTAINER_FRAGMENT_TYPE) {
        Some(c) => match symbol_field_of(&c, FIELD_NAVIGATION_TYPE) {
            Some(t) => t == KFX_NAVIGATION_HEADINGS,
            None => false,
        },
        None => false,
    }
}

fn nav_entry(
    containers: &Vec<NativeContainerOwned>,
    fragments: &Vec<NativeFragment>,
    container_index: usize,
    entry: &IonValue,
    has_headings: bool,
    malformed: &mut usize,
) -> (r: Vec<NavPointDraft>)
    ensures
        nav_views(r@) == nav_entry_points(container_views(containers@), fragment_views(fragments@), container_index, entry@, has_headings).0,
        *final(malformed) == sat_plus(
            *old(malformed),
            nav_entry_points(container_views(containers@), fragment_views(fragments@), container_index, entry@, has_headings).1,
        ),
{
    let container = match navigation_fragment_value(containers, fragments, container_index, entry, NAV_CONTAINER_FRAGMENT_TYPE) {
        Some(c) => c,
        None => {
            return navigation_entry_step(entry, malformed, NAV_DEPTH_LIMIT);
        },
    };
    let nav_type = match symbol_field_of(&container, FIELD_NAVIGATION_TYPE) {
        Some(t) => t,
        None => {
            return navigation_entry_step(entry, malformed, NAV_DEPTH_LIMIT);
        },
    };
    let units = match struct_get(&container, FIELD_NAVIGATION_CHILDREN) {
        Some(u) => u,
        None => {
            *malformed = malformed.saturating_add(1);
            let e: Vec<NavPointDraft> = Vec::new();
            assert(nav_views(e@) =~= Seq::<NavView>::empty());
            return e;
        },
    };
    let initial: Option<u8> = if nav_type == KFX_NAVIGATION_TOC && !has_headings { Some(1) } else { None };
    parse_navigation_units(containers, fragments, container_index, units, nav_type, initial, malformed, NAV_DEPTH_LIMIT)
}

/// Reads one navigation fragment into the book's navigation, reporting an
/// unrecognised shape or malformed entries.
pub fn collect_navigation(
    containers: &Vec<NativeContainerOwned>,
    fragments: &Vec<NativeFragment>,
    navigation: &mut Vec<NavPointDraft>,
    unknown_features: &mut StringSet,
    input_loss: &mut Vec<String>,
    container_index: usize,
    value: &IonValue,
)
    requires
        old(unknown_features).wf(),
    ensures
        final(unknown_features).wf(),
        (nav_views(final(navigation)@), final(unknown_features).set(), strs(final(input_loss)@)) == navigation_apply(
            nav_views(old(navigation)@),
            old(unknown_features).set(),
            strs(old(input_loss)@),
            navigation_spec(container_views(containers@), fragment_views(fragments@), container_index, value@),
        ),
{
    let ghost cv = container_views(containers@);
    let ghost fv = fragment_views(fragments@);
    let entries = match top_level_struct_field(value, FIELD_NAVIGATION_ROOT) {
        Some(IonValue::List(entries)) => entries,
        _ => {
            unknown_features.insert_str("kfx-navigation-fragment-shape-unsupported");
            let ghost before = input_loss@;
            input_loss.push(owned("A KFX navigation fragment did not contain the recognized navigation list."));
            assert(strs(input_loss@) =~= strs(before).push(shape_unsupported_message()));
            return;
        },
    };
    let ghost ms = models(entries@);
    proof {
        lemma_models_index(entries@);
    }
    let mut has_headings = false;
    let mut k: usize = 0;
    while k < entries.len()
        invariant
            0 <= k <= entries@.len(),
            cv == container_views(containers@),
            fv == fragment_views(fragments@),
            ms == models(entries@),
            ms.len() == entries@.len(),
            forall|j: int| 0 <= j < entries@.len() ==> #[trigger] ms[j] == entries@[j]@,
            has_headings == exists|j: int| 0 <= j < k && #[trigger] is_heading_container(cv, fv, container_index, ms[j]),
        decreases entries@.len() - k,
    {
        if !has_headings {
            let here = heading_container(containers, fragments, container_index, &entries[k]);
            assert(here == is_heading_container(cv, fv, container_index, ms[k as int]));
            if here {
                has_headings = true;
            }
        } else {
            proof {
                let j = choose|j: int| 0 <= j < k && #[trigger] is_heading_container(cv, fv, container_index, ms[j]);
                assert(0 <= j < k + 1 && is_heading_container(cv, fv, container_index, ms[j]));
            }
        }
        k = k + 1;
    }
    assert(has_headings == has_heading_navigation(cv, fv, container_index, ms));
    let mut malformed: usize = 0;
    let mut parsed: Vec<NavPointDraft> = Vec::new();
    assert(nav_views(parsed@) =~= Seq::<NavView>::empty());
    let mut i: usize = 0;
    while i < entries.len()
        invariant
            0 <= i <= entries@.len(),
            cv == container_views(containers@),
            fv == fragment_views(fragments@),
            ms == models(entries@),
            ms.len() == entries@.len(),
            forall|j: int| 0 <= j < entries@.len() ==> #[trigger] ms[j] == entries@[j]@,
            nav_views(parsed@) == nav_entries_fold(cv, fv, container_index, ms.subrange(0, i as int), has_headings).0,
            malformed == sat_plus(0, nav_entries_fold(cv, fv, container_index, ms.subrange(0, i as int), has_headings).1),
        decreases entries@.len() - i,
    {
        assert(ms.subrange(0, i + 1).drop_last() =~= ms.subrange(0, i as int));
        let ghost prev = nav_entries_fold(cv, fv, container_index, ms.subrange(0, i as int), has_headings);
        let mut points = nav_entry(containers, fragments, container_index, &entries[i], has_headings, &mut malformed);
        let ghost before = parsed@;
        let ghost pv = points@;
        parsed.append(&mut points);
        proof {
            lemma_nav_views_append(before, pv);
            lemma_sat_plus_twice(0, prev.1, nav_entry_points(cv, fv, container_index, ms[i as int], has_headings).1);
        }
        i = i + 1;
    }
    assert(ms.subrange(0, ms.len() as int) =~= ms);
    let ghost old_nav = navigation@;
    let ghost pv = parsed@;
    navigation.append(&mut parsed);
    proof {
        lemma_nav_views_append(old_nav, pv);
    }
    if malformed > 0 {
        unknown_features.insert_str("kfx-navigation-entry-shape-unsupported");
        let count = decimal_string(malformed as u64);
        let message = join2(count.as_str(), " malformed KFX navigation entries could not be retained.");
        let ghost before = input_loss@;
        input_loss.push(message);
        assert(strs(input_loss@) =~= strs(before).push(message@));
    }
}

} // verus!
