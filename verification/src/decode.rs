//! The passes that read the book's own data out of decoded fragments:
//! document string tables, metadata, inline resources, link anchors, and
//! the limitations the reader reports.
use vstd::prelude::*;
use std::collections::BTreeMap;
use std::collections::BTreeSet;
use crate::error::{AmazonKfxError, KfxErrorView, ParseMode};
use crate::ion::{IonModel, IonValue, models, field_models, lemma_models_index, lemma_field_models_index};
use crate::media::{media_spec, media_type_for_bytes};
use crate::native::{
    ContainerOwnedView, FragmentView, KfxLinkTarget, LinkTargetView, Metadata, MetadataView,
    NativeContainerOwned, NativeFragment, NativeModel, NativeModelView, NativeResource, ResourceView,
    copy_string, fragment_views, link_views, resource_views, strs, table_views, container_views,
};
use crate::strset::StringSet;
use crate::text::{chars_of, decimal, digits_value, is_digit, owned};
use crate::value::{
    as_int, as_string, field_of, int_of, items_of, list_items, string_field, string_of,
    struct_get, symbol_field, symbol_field_of, string_field_of, int_field, int_field_of, symbol_of,
    ion_symbol_id,
};
use crate::symbols::MAX_STRING_ITEMS;
use crate::audit_path::{digit_run_len, lemma_digit_run_len_bound, scan_number};
use crate::value::copy_bytes;
use crate::symbols::name_views;
use crate::text::{str_eq, decimal_string, join2};
use crate::nav::{collect_navigation, navigation_apply, navigation_spec};
use crate::native::{nav_views};

verus! {

broadcast use vstd::laws_cmp::group_laws_cmp;

pub const FIELD_TEXT_VALUES: u64 = 146;
pub const FIELD_FRAGMENT_ID: u64 = 4;
pub const FIELD_METADATA_ENTRIES: u64 = 491;
pub const FIELD_METADATA_KIND: u64 = 495;
pub const FIELD_METADATA_PAIRS: u64 = 258;
pub const FIELD_METADATA_KEY: u64 = 492;
pub const FIELD_METADATA_VALUE: u64 = 307;
pub const FIELD_ANCHOR_NAME: u64 = 180;
pub const FIELD_ANCHOR_POSITION: u64 = 183;
pub const FIELD_ANCHOR_URI: u64 = 186;
pub const FIELD_NAV_TARGET_ID: u64 = 155;
pub const DOCUMENT_SYMBOLS_FRAGMENT_TYPE: u32 = 145;
pub const CONTENT_FRAGMENT_TYPE: u32 = 259;

// ---------------------------------------------------------------------------
// Document string tables.
// ---------------------------------------------------------------------------

/// The string items of a list, in order.
pub open spec fn string_values(items: Seq<IonModel>) -> Seq<Seq<char>>
    decreases items.len(),
{
    if items.len() == 0 {
        Seq::empty()
    } else {
        let prev = string_values(items.drop_last());
        match string_of(items.last()) {
            Some(s) => prev.push(s),
            None => prev,
        }
    }
}

/// Copies the string items among the first `limit` items of a list.
fn strings_of_items(items: &Vec<IonValue>, limit: usize) -> (r: Vec<String>)
    ensures
        strs(r@) == string_values(models(items@).take(if limit < items@.len() { limit as int } else { items@.len() as int })),
{
    let ghost ms = models(items@);
    proof {
        lemma_models_index(items@);
    }
    let n = if limit < items.len() { limit } else { items.len() };
    let mut out: Vec<String> = Vec::new();
    let mut i: usize = 0;
    while i < n
        invariant
            0 <= i <= n <= items@.len(),
            ms == models(items@),
            ms.len() == items@.len(),
            forall|k: int| 0 <= k < items@.len() ==> #[trigger] ms[k] == items@[k]@,
            strs(out@) == string_values(ms.take(i as int)),
        decreases n - i,
    {
        proof {
            assert(ms.take(i + 1).drop_last() =~= ms.take(i as int));
            assert(ms.take(i + 1).last() == items@[i as int]@);
        }
        match as_string(&items[i]) {
            Some(s) => {
                let ghost before = out@;
                out.push(owned(s));
                assert(strs(out@) =~= strs(before).push(s@));
            },
            None => {},
        }
        i = i + 1;
    }
    out
}

/// The table id a document string pool declares: its `$4` symbol, else the
/// entity id of its fragment.
pub open spec fn doc_table_id(f: FragmentView) -> u32 {
    match symbol_field(f.value, FIELD_FRAGMENT_ID) {
        Some(id) => if id <= u32::MAX {
            id as u32
        } else {
            f.entity_id
        },
        None => f.entity_id,
    }
}

/// What one fragment adds to the document string tables and features.
pub open spec fn doc_symbols_step(
    tables: Map<u32, Seq<Seq<char>>>,
    features: Set<Seq<char>>,
    f: FragmentView,
) -> (Map<u32, Seq<Seq<char>>>, Set<Seq<char>>) {
    if f.fragment_type != DOCUMENT_SYMBOLS_FRAGMENT_TYPE {
        (tables, features)
    } else {
        match field_of(f.value, FIELD_TEXT_VALUES) {
            None => (tables, features.insert("document-symbol-fragment-shape"@)),
            Some(IonModel::List(items)) => (
                tables.insert(doc_table_id(f), string_values(items.take(if MAX_STRING_ITEMS < items.len() { MAX_STRING_ITEMS as int } else { items.len() as int }))),
                features,
            ),
            Some(_) => (tables, features),
        }
    }
}

pub open spec fn doc_symbols_fold(
    tables: Map<u32, Seq<Seq<char>>>,
    features: Set<Seq<char>>,
    frags: Seq<FragmentView>,
) -> (Map<u32, Seq<Seq<char>>>, Set<Seq<char>>)
    decreases frags.len(),
{
    if frags.len() == 0 {
        (tables, features)
    } else {
        let (t, u) = doc_symbols_fold(tables, features, frags.drop_last());
        doc_symbols_step(t, u, frags.last())
    }
}

/// The model after reading the document string pools (`$145` fragments).
pub open spec fn doc_symbols_spec(m: NativeModelView, mode: ParseMode) -> Result<NativeModelView, KfxErrorView> {
    let (t, u) = doc_symbols_fold(m.string_tables, m.unknown_features, m.fragments);
    if t.is_empty() && mode == ParseMode::Strict {
        Err(KfxErrorView::Semantic("CONT has no document symbol table"@))
    } else {
        Ok(NativeModelView { string_tables: t, unknown_features: u, ..m })
    }
}

proof fn lemma_table_views_insert(m: Map<u32, Vec<String>>, k: u32, v: Vec<String>)
    ensures
        table_views(m.insert(k, v)) == table_views(m).insert(k, strs(v@)),
{
    assert(table_views(m.insert(k, v)) =~= table_views(m).insert(k, strs(v@)));
}

/// Reads the document string pools into `model.string_tables`; a strict
/// read fails when the book declares none.
pub fn decode_document_symbols(model: &mut NativeModel, mode: ParseMode) -> (r: Result<(), AmazonKfxError>)
    requires
        old(model).wf(),
    ensures
        final(model).wf(),
        match doc_symbols_spec(old(model)@, mode) {
            Ok(m) => r is Ok && final(model)@ == m,
            Err(e) => r matches Err(x) && x@ == e,
        },
{
    let ghost start = model@;
    let mut i: usize = 0;
    proof {
        assert(start.fragments.take(0) =~= Seq::<FragmentView>::empty());
    }
    while i < model.fragments.len()
        invariant
            0 <= i <= model.fragments@.len(),
            model.wf(),
            model@.fragments == start.fragments,
            (model@.string_tables, model@.unknown_features) == doc_symbols_fold(
                start.string_tables,
                start.unknown_features,
                start.fragments.take(i as int),
            ),
            model@ == (NativeModelView { string_tables: model@.string_tables, unknown_features: model@.unknown_features, ..start }),
        decreases model.fragments@.len() - i,
    {
        let ghost f = model.fragments@[i as int]@;
        proof {
            assert(start.fragments.take(i + 1).drop_last() =~= start.fragments.take(i as int));
            assert(start.fragments[i as int] == f);
        }
        if model.fragments[i].fragment_type == DOCUMENT_SYMBOLS_FRAGMENT_TYPE {
            let table_id: u32 = match symbol_field_of(&model.fragments[i].value, FIELD_FRAGMENT_ID) {
                Some(id) => if id <= 0xffff_ffff {
                    id as u32
                } else {
                    model.fragments[i].entity_id
                },
                None => model.fragments[i].entity_id,
            };
            match struct_get(&model.fragments[i].value, FIELD_TEXT_VALUES) {
                None => {
                    model.unknown_features.insert_str("document-symbol-fragment-shape");
                },
                Some(entries) => match entries {
                    IonValue::List(strings) => {
                        proof {
                            lemma_models_index(strings@);
                        }
                        let values = strings_of_items(strings, MAX_STRING_ITEMS);
                        let ghost old_tables = model.string_tables@;
                        model.string_tables.insert(table_id, values);
                        proof {
                            lemma_table_views_insert(old_tables, table_id, values);
                        }
                    },
                    _ => {},
                },
            }
        }
        i = i + 1;
    }
    proof {
        assert(start.fragments.take(i as int) =~= start.fragments);
    }
    if model.string_tables.is_empty() && mode == ParseMode::Strict {
        assert(table_views(model.string_tables@).is_empty() == model.string_tables@.is_empty()) by {
            if !model.string_tables@.is_empty() {
                let k = choose|k: u32| model.string_tables@.contains_key(k);
                assert(table_views(model.string_tables@).contains_key(k));
            } else {
                assert(table_views(model.string_tables@) =~= Map::<u32, Seq<Seq<char>>>::empty());
            }
        }
        return Err(AmazonKfxError::Semantic(owned("CONT has no document symbol table")));
    }
    assert(table_views(model.string_tables@).is_empty() == model.string_tables@.is_empty()) by {
        if !model.string_tables@.is_empty() {
            let k = choose|k: u32| model.string_tables@.contains_key(k);
            assert(table_views(model.string_tables@).contains_key(k));
        } else {
            assert(table_views(model.string_tables@) =~= Map::<u32, Seq<Seq<char>>>::empty());
        }
    }
    Ok(())
}

// ---------------------------------------------------------------------------
// Text value lists found anywhere in a fragment.
// ---------------------------------------------------------------------------

/// Table 0 takes the first non-empty `$146` string list met in a pre-order
/// walk, unless it is already present.
pub open spec fn tables_here(t: Map<u32, Seq<Seq<char>>>, m: IonModel) -> Map<u32, Seq<Seq<char>>> {
    match field_of(m, FIELD_TEXT_VALUES) {
        Some(IonModel::List(vs)) => {
            let s = string_values(vs);
            if s.len() > 0 && !t.contains_key(0) {
                t.insert(0, s)
            } else {
                t
            }
        },
        _ => t,
    }
}

pub open spec fn tables_walk(t: Map<u32, Seq<Seq<char>>>, m: IonModel) -> Map<u32, Seq<Seq<char>>>
    decreases m,
{
    let t1 = tables_here(t, m);
    match m {
        IonModel::Struct(fields) => tables_walk_fields(t1, fields),
        IonModel::List(items) => tables_walk_items(t1, items),
        IonModel::SExp(items) => tables_walk_items(t1, items),
        IonModel::Annotation { value, .. } => tables_walk(t1, *value),
        _ => t1,
    }
}

pub open spec fn tables_walk_items(t: Map<u32, Seq<Seq<char>>>, s: Seq<IonModel>) -> Map<u32, Seq<Seq<char>>>
    decreases s,
{
    if s.len() == 0 {
        t
    } else {
        tables_walk(tables_walk_items(t, s.drop_last()), s.last())
    }
}

pub open spec fn tables_walk_fields(t: Map<u32, Seq<Seq<char>>>, s: Seq<(u64, IonModel)>) -> Map<u32, Seq<Seq<char>>>
    decreases s,
{
    if s.len() == 0 {
        t
    } else {
        proof {
            assert(decreases_to!(s => s[s.len() - 1].1));
        }
        tables_walk(tables_walk_fields(t, s.drop_last()), s.last().1)
    }
}

fn tables_at(tables: &mut BTreeMap<u32, Vec<String>>, value: &IonValue)
    ensures
        table_views(final(tables)@) == tables_here(table_views(old(tables)@), value@),
{
    match struct_get(value, FIELD_TEXT_VALUES) {
        Some(v) => match v {
            IonValue::List(values) => {
                let strings = strings_of_items(values, values.len());
                assert(models(values@).take(values@.len() as int) =~= models(values@)) by {
                    lemma_models_index(values@);
                }
                if strings.len() > 0 && !tables.contains_key(&0) {
                    let ghost old_tables = tables@;
                    tables.insert(0, strings);
                    proof {
                        lemma_table_views_insert(old_tables, 0, strings);
                    }
                } else {
                    proof {
                        if strings.len() > 0 {
                            assert(table_views(tables@).contains_key(0));
                        }
                    }
                }
            },
            _ => {},
        },
        None => {},
    }
}

/// Records the first non-empty `$146` string list of a fragment as table 0
/// when the book has no table 0 yet.
pub fn collect_string_tables(tables: &mut BTreeMap<u32, Vec<String>>, value: &IonValue)
    ensures
        table_views(final(tables)@) == tables_walk(table_views(old(tables)@), value@),
    decreases value,
{
    tables_at(tables, value);
    match value {
        IonValue::Struct(fields) => tables_in_fields(tables, fields),
        IonValue::List(items) => tables_in_items(tables, items),
        IonValue::SExp(items) => tables_in_items(tables, items),
        IonValue::Annotation { value: inner, .. } => collect_string_tables(tables, inner),
        _ => {},
    }
}

fn tables_in_items(tables: &mut BTreeMap<u32, Vec<String>>, items: &Vec<IonValue>)
    ensures
        table_views(final(tables)@) == tables_walk_items(table_views(old(tables)@), models(items@)),
    decreases items,
{
    let ghost ms = models(items@);
    let ghost t0 = table_views(tables@);
    proof {
        lemma_models_index(items@);
    }
    let mut i: usize = 0;
    while i < items.len()
        invariant
            0 <= i <= items@.len(),
            ms == models(items@),
            ms.len() == items@.len(),
            forall|k: int| 0 <= k < items@.len() ==> #[trigger] ms[k] == items@[k]@,
            table_views(tables@) == tables_walk_items(t0, ms.subrange(0, i as int)),
        decreases items@.len() - i,
    {
        assert(decreases_to!(items => items@[i as int]));
        assert(ms.subrange(0, i + 1).drop_last() =~= ms.subrange(0, i as int));
        collect_string_tables(tables, &items[i]);
        i = i + 1;
    }
    assert(ms.subrange(0, ms.len() as int) =~= ms);
}

fn tables_in_fields(tables: &mut BTreeMap<u32, Vec<String>>, fields: &Vec<(u64, IonValue)>)
    ensures
        table_views(final(tables)@) == tables_walk_fields(table_views(old(tables)@), field_models(fields@)),
    decreases fields,
{
    let ghost fs = field_models(fields@);
    let ghost t0 = table_views(tables@);
    proof {
        lemma_field_models_index(fields@);
    }
    let mut i: usize = 0;
    while i < fields.len()
        invariant
            0 <= i <= fields@.len(),
            fs == field_models(fields@),
            fs.len() == fields@.len(),
            forall|k: int| 0 <= k < fields@.len() ==> #[trigger] fs[k] == (fields@[k].0, fields@[k].1@),
            table_views(tables@) == tables_walk_fields(t0, fs.subrange(0, i as int)),
        decreases fields@.len() - i,
    {
        assert(decreases_to!(fields => fields@[i as int].1));
        assert(fs.subrange(0, i + 1).drop_last() =~= fs.subrange(0, i as int));
        collect_string_tables(tables, &fields[i].1);
        i = i + 1;
    }
    assert(fs.subrange(0, fs.len() as int) =~= fs);
}

// ---------------------------------------------------------------------------
// Inline resources.
// ---------------------------------------------------------------------------

pub open spec fn has_bytes(rs: Seq<ResourceView>, b: Seq<u8>) -> bool {
    exists|i: int| 0 <= i < rs.len() && #[trigger] rs[i].bytes == b
}

/// A resource read from a blob inside a fragment.
pub open spec fn inline_resource(b: Seq<u8>, ci: usize) -> ResourceView {
    ResourceView {
        container_index: ci,
        fragment_type: 0,
        entity_id: None,
        media_type: media_spec(b).0,
        bytes: b,
        entity_info: None,
    }
}

/// Every blob longer than 32 bytes, in pre-order, becomes a resource unless
/// a resource with the same bytes exists.
pub open spec fn resources_walk(rs: Seq<ResourceView>, m: IonModel, ci: usize) -> Seq<ResourceView>
    decreases m,
{
    match m {
        IonModel::Blob(b) => if b.len() > 32 && !has_bytes(rs, b) {
            rs.push(inline_resource(b, ci))
        } else {
            rs
        },
        IonModel::Struct(fields) => resources_walk_fields(rs, fields, ci),
        IonModel::List(items) => resources_walk_items(rs, items, ci),
        IonModel::SExp(items) => resources_walk_items(rs, items, ci),
        IonModel::Annotation { value, .. } => resources_walk(rs, *value, ci),
        _ => rs,
    }
}

pub open spec fn resources_walk_items(rs: Seq<ResourceView>, s: Seq<IonModel>, ci: usize) -> Seq<ResourceView>
    decreases s,
{
    if s.len() == 0 {
        rs
    } else {
        resources_walk(resources_walk_items(rs, s.drop_last(), ci), s.last(), ci)
    }
}

pub open spec fn resources_walk_fields(rs: Seq<ResourceView>, s: Seq<(u64, IonModel)>, ci: usize) -> Seq<ResourceView>
    decreases s,
{
    if s.len() == 0 {
        rs
    } else {
        proof {
            assert(decreases_to!(s => s[s.len() - 1].1));
        }
        resources_walk(resources_walk_fields(rs, s.drop_last(), ci), s.last().1, ci)
    }
}

fn same_bytes(a: &[u8], b: &[u8]) -> (r: bool)
    ensures
        r == (a@ == b@),
{
    if a.len() != b.len() {
        return false;
    }
    let mut i: usize = 0;
    while i < a.len()
        invariant
            0 <= i <= a@.len(),
            a@.len() == b@.len(),
            forall|k: int| 0 <= k < i ==> a@[k] == b@[k],
        decreases a@.len() - i,
    {
        if a[i] != b[i] {
            return false;
        }
        i = i + 1;
    }
    assert(a@ =~= b@);
    true
}

fn resources_have(resources: &Vec<NativeResource>, bytes: &Vec<u8>) -> (r: bool)
    ensures
        r == has_bytes(resource_views(resources@), bytes@),
{
    let ghost rv = resource_views(resources@);
    let mut i: usize = 0;
    while i < resources.len()
        invariant
            0 <= i <= resources@.len(),
            rv == resource_views(resources@),
            forall|k: int| 0 <= k < i ==> #[trigger] rv[k].bytes != bytes@,
        decreases resources@.len() - i,
    {
        assert(rv[i as int] == resources@[i as int]@);
        if same_bytes(resources[i].bytes.as_slice(), bytes.as_slice()) {
            assert(rv[i as int].bytes == bytes@);
            return true;
        }
        i = i + 1;
    }
    false
}

/// Adds the long blobs of a fragment, in order, as resources of container
/// `ci`, skipping byte-identical duplicates.
pub fn collect_resources(resources: &mut Vec<NativeResource>, value: &IonValue, container_index: usize)
    ensures
        resource_views(final(resources)@) == resources_walk(resource_views(old(resources)@), value@, container_index),
    decreases value,
{
    match value {
        IonValue::Blob(bytes) => {
            if bytes.len() > 32 {
                if resources_have(resources, bytes) {
                    return;
                }
                let (media_type, _) = media_type_for_bytes(bytes.as_slice());
                let ghost before = resources@;
                resources.push(
                    NativeResource {
                        container_index,
                        fragment_type: 0,
                        entity_id: None,
                        media_type,
                        bytes: copy_bytes(bytes),
                        entity_info: None,
                    },
                );
                assert(resource_views(resources@) =~= resource_views(before).push(inline_resource(bytes@, container_index)));
            }
        },
        IonValue::Struct(fields) => resources_in_fields(resources, fields, container_index),
        IonValue::List(items) => resources_in_items(resources, items, container_index),
        IonValue::SExp(items) => resources_in_items(resources, items, container_index),
        IonValue::Annotation { value: inner, .. } => collect_resources(resources, inner, container_index),
        _ => {},
    }
}

fn resources_in_items(resources: &mut Vec<NativeResource>, items: &Vec<IonValue>, ci: usize)
    ensures
        resource_views(final(resources)@) == resources_walk_items(resource_views(old(resources)@), models(items@), ci),
    decreases items,
{
    let ghost ms = models(items@);
    let ghost r0 = resource_views(resources@);
    proof {
        lemma_models_index(items@);
    }
    let mut i: usize = 0;
    while i < items.len()
        invariant
            0 <= i <= items@.len(),
            ms == models(items@),
            ms.len() == items@.len(),
            forall|k: int| 0 <= k < items@.len() ==> #[trigger] ms[k] == items@[k]@,
            resource_views(resources@) == resources_walk_items(r0, ms.subrange(0, i as int), ci),
        decreases items@.len() - i,
    {
        assert(decreases_to!(items => items@[i as int]));
        assert(ms.subrange(0, i + 1).drop_last() =~= ms.subrange(0, i as int));
        collect_resources(resources, &items[i], ci);
        i = i + 1;
    }
    assert(ms.subrange(0, ms.len() as int) =~= ms);
}

fn resources_in_fields(resources: &mut Vec<NativeResource>, fields: &Vec<(u64, IonValue)>, ci: usize)
    ensures
        resource_views(final(resources)@) == resources_walk_fields(resource_views(old(resources)@), field_models(fields@), ci),
    decreases fields,
{
    let ghost fs = field_models(fields@);
    let ghost r0 = resource_views(resources@);
    proof {
        lemma_field_models_index(fields@);
    }
    let mut i: usize = 0;
    while i < fields.len()
        invariant
            0 <= i <= fields@.len(),
            fs == field_models(fields@),
            fs.len() == fields@.len(),
            forall|k: int| 0 <= k < fields@.len() ==> #[trigger] fs[k] == (fields@[k].0, fields@[k].1@),
            resource_views(resources@) == resources_walk_fields(r0, fs.subrange(0, i as int), ci),
        decreases fields@.len() - i,
    {
        assert(decreases_to!(fields => fields@[i as int].1));
        assert(fs.subrange(0, i + 1).drop_last() =~= fs.subrange(0, i as int));
        collect_resources(resources, &fields[i].1, ci);
        i = i + 1;
    }
    assert(fs.subrange(0, fs.len() as int) =~= fs);
}

// ---------------------------------------------------------------------------
// Book metadata.
// ---------------------------------------------------------------------------

/// `str::parse::<u32>`: an optional `+`, then one or more ASCII digits
/// whose value fits `u32`.
pub open spec fn parse_u32_spec(s: Seq<char>) -> Option<u32> {
    let d = unsigned_digits(s);
    if d.len() > 0 && all_digits(d) && digits_value(d) <= u32::MAX {
        Some(digits_value(d) as u32)
    } else {
        None
    }
}

/// `s` without one leading `+`.
pub open spec fn unsigned_digits(s: Seq<char>) -> Seq<char> {
    if s.len() > 0 && s[0] == '+' {
        s.drop_first()
    } else {
        s
    }
}

pub open spec fn all_digits(d: Seq<char>) -> bool {
    forall|k: int| 0 <= k < d.len() ==> is_digit(#[trigger] d[k])
}

pub fn parse_u32(text: &str) -> (r: Option<u32>)
    ensures
        r == parse_u32_spec(text@),
{
    let chars = chars_of(text);
    let start: usize = if chars.len() > 0 && chars[0] == '+' { 1 } else { 0 };
    let ghost d = unsigned_digits(text@);
    proof {
        assert(chars@.subrange(start as int, chars@.len() as int) =~= d);
    }
    if start >= chars.len() {
        assert(d.len() == 0);
        assert(parse_u32_spec(text@) is None);
        return None;
    }
    let (end, value) = scan_number(&chars, start, 0xffff_ffff);
    proof {
        lemma_digit_run_len_bound(d);
    }
    if end < chars.len() {
        proof {
            assert(d[(end - start) as int] == chars@[end as int]);
            assert(digit_run_len(d) == end - start);
            assert(!is_digit(d[(end - start) as int]));
            assert(parse_u32_spec(text@) is None);
        }
        return None;
    }
    proof {
        assert(chars@.subrange(start as int, end as int) =~= d);
    }
    match value {
        Some(v) => Some(v as u32),
        None => None,
    }
}

pub type MetaState = (MetadataView, Set<u32>, Set<Seq<char>>);

/// What one `kindle_title_metadata` key/value pair contributes.
pub open spec fn metadata_pair_step(st: MetaState, key: Seq<char>, val: Seq<char>) -> MetaState {
    let (md, ids, fids) = st;
    if key == "title"@ {
        (MetadataView { title: Some(val), ..md }, ids, fids)
    } else if key == "author"@ {
        (MetadataView { authors: md.authors.push(val), ..md }, ids, fids)
    } else if key == "language"@ {
        (MetadataView { language: Some(val), ..md }, ids, fids)
    } else if key == "publisher"@ {
        (MetadataView { publisher: Some(val), ..md }, ids, fids)
    } else if key == "description"@ {
        (MetadataView { description: Some(val), ..md }, ids, fids)
    } else if key == "issue_date"@ {
        (
            MetadataView {
                date: if md.date is None { Some(val) } else { md.date },
                dates: md.dates.push(val),
                ..md
            },
            ids,
            fids,
        )
    } else if key == "ASIN"@ || key == "content_id"@ || key == "book_id"@ {
        (MetadataView { identifiers: md.identifiers.push(val), ..md }, ids, fids)
    } else if key == "cover"@ || key == "cover_image"@ || key == "cover_resource"@ || key == "cover_id"@ {
        match parse_u32_spec(val) {
            Some(n) => (md, ids.insert(n), fids),
            None => if val.len() > 0 {
                (md, ids, fids.insert(val))
            } else {
                (md, ids, fids)
            },
        }
    } else {
        (md, ids, fids)
    }
}

pub open spec fn metadata_pair(st: MetaState, pair: IonModel) -> MetaState {
    match (string_field(pair, FIELD_METADATA_KEY), string_field(pair, FIELD_METADATA_VALUE)) {
        (Some(k), Some(v)) => metadata_pair_step(st, k, v),
        _ => st,
    }
}

pub open spec fn metadata_pairs(st: MetaState, pairs: Seq<IonModel>) -> MetaState
    decreases pairs.len(),
{
    if pairs.len() == 0 {
        st
    } else {
        metadata_pair(metadata_pairs(st, pairs.drop_last()), pairs.last())
    }
}

pub open spec fn metadata_entry(st: MetaState, entry: IonModel) -> MetaState {
    if string_field(entry, FIELD_METADATA_KIND) == Some("kindle_title_metadata"@) {
        match field_of(entry, FIELD_METADATA_PAIRS) {
            Some(IonModel::List(pairs)) => metadata_pairs(st, pairs),
            _ => st,
        }
    } else {
        st
    }
}

pub open spec fn metadata_entries(st: MetaState, entries: Seq<IonModel>) -> MetaState
    decreases entries.len(),
{
    if entries.len() == 0 {
        st
    } else {
        metadata_entry(metadata_entries(st, entries.drop_last()), entries.last())
    }
}

/// The metadata a fragment declares through its `$491` entries.
pub open spec fn metadata_spec(st: MetaState, value: IonModel) -> MetaState {
    match field_of(value, FIELD_METADATA_ENTRIES) {
        Some(IonModel::List(entries)) => metadata_entries(st, entries),
        _ => st,
    }
}

fn apply_metadata_pair(
    metadata: &mut Metadata,
    cover_ids: &mut BTreeSet<u32>,
    cover_fids: &mut StringSet,
    key: &str,
    value: &str,
)
    requires
        old(cover_fids).wf(),
    ensures
        final(cover_fids).wf(),
        (final(metadata)@, final(cover_ids)@, final(cover_fids).set()) == metadata_pair_step(
            (old(metadata)@, old(cover_ids)@, old(cover_fids).set()),
            key@,
            value@,
        ),
{
    let ghost md = metadata@;
    if str_eq(key, "title") {
        metadata.title = Some(owned(value));
    } else if str_eq(key, "author") {
        metadata.authors.push(owned(value));
        assert(metadata@.authors =~= md.authors.push(value@));
    } else if str_eq(key, "language") {
        metadata.language = Some(owned(value));
    } else if str_eq(key, "publisher") {
        metadata.publisher = Some(owned(value));
    } else if str_eq(key, "description") {
        metadata.description = Some(owned(value));
    } else if str_eq(key, "issue_date") {
        if metadata.date.is_none() {
            metadata.date = Some(owned(value));
        }
        metadata.dates.push(owned(value));
        assert(metadata@.dates =~= md.dates.push(value@));
    } else if str_eq(key, "ASIN") || str_eq(key, "content_id") || str_eq(key, "book_id") {
        metadata.identifiers.push(owned(value));
        assert(metadata@.identifiers =~= md.identifiers.push(value@));
    } else if str_eq(key, "cover") || str_eq(key, "cover_image") || str_eq(key, "cover_resource") || str_eq(key, "cover_id") {
        match parse_u32(value) {
            Some(n) => {
                cover_ids.insert(n);
            },
            None => {
                if !value.is_empty() {
                    cover_fids.insert(owned(value));
                }
            },
        }
    }
}

/// Reads the `kindle_title_metadata` entries of a fragment into the book
/// metadata and the cover references.
pub fn collect_metadata(
    metadata: &mut Metadata,
    cover_ids: &mut BTreeSet<u32>,
    cover_fids: &mut StringSet,
    value: &IonValue,
)
    requires
        old(cover_fids).wf(),
    ensures
        final(cover_fids).wf(),
        (final(metadata)@, final(cover_ids)@, final(cover_fids).set()) == metadata_spec(
            (old(metadata)@, old(cover_ids)@, old(cover_fids).set()),
            value@,
        ),
{
    let entries = match struct_get(value, FIELD_METADATA_ENTRIES) {
        Some(IonValue::List(entries)) => entries,
        _ => {
            return;
        },
    };
    let ghost ms = models(entries@);
    let ghost st0 = (metadata@, cover_ids@, cover_fids.set());
    proof {
        lemma_models_index(entries@);
    }
    let mut i: usize = 0;
    while i < entries.len()
        invariant
            0 <= i <= entries@.len(),
            cover_fids.wf(),
            ms == models(entries@),
            ms.len() == entries@.len(),
            forall|k: int| 0 <= k < entries@.len() ==> #[trigger] ms[k] == entries@[k]@,
            (metadata@, cover_ids@, cover_fids.set()) == metadata_entries(st0, ms.subrange(0, i as int)),
        decreases entries@.len() - i,
    {
        let entry = &entries[i];
        proof {
            assert(ms.subrange(0, i + 1).drop_last() =~= ms.subrange(0, i as int));
        }
        let is_title_metadata = match string_field_of(entry, FIELD_METADATA_KIND) {
            Some(kind) => str_eq(kind, "kindle_title_metadata"),
            None => false,
        };
        if is_title_metadata {
            match struct_get(entry, FIELD_METADATA_PAIRS) {
                Some(IonValue::List(pairs)) => {
                    let ghost ps = models(pairs@);
                    let ghost st1 = (metadata@, cover_ids@, cover_fids.set());
                    proof {
                        lemma_models_index(pairs@);
                    }
                    let mut j: usize = 0;
                    while j < pairs.len()
                        invariant
                            0 <= j <= pairs@.len(),
                            cover_fids.wf(),
                            ps == models(pairs@),
                            ps.len() == pairs@.len(),
                            forall|k: int| 0 <= k < pairs@.len() ==> #[trigger] ps[k] == pairs@[k]@,
                            (metadata@, cover_ids@, cover_fids.set()) == metadata_pairs(st1, ps.subrange(0, j as int)),
                        decreases pairs@.len() - j,
                    {
                        let pair = &pairs[j];
                        proof {
                            assert(ps.subrange(0, j + 1).drop_last() =~= ps.subrange(0, j as int));
                        }
                        match string_field_of(pair, FIELD_METADATA_KEY) {
                            Some(key) => match string_field_of(pair, FIELD_METADATA_VALUE) {
                                Some(val) => apply_metadata_pair(metadata, cover_ids, cover_fids, key, val),
                                None => {},
                            },
                            None => {},
                        }
                        j = j + 1;
                    }
                    assert(ps.subrange(0, ps.len() as int) =~= ps);
                },
                _ => {},
            }
        }
        i = i + 1;
    }
    assert(ms.subrange(0, ms.len() as int) =~= ms);
}

// ---------------------------------------------------------------------------
// Link anchors (`$266`).
// ---------------------------------------------------------------------------

pub const ANCHOR_FRAGMENT_TYPE: u32 = 266;

/// The name that a container's symbol table gives a symbol id.
pub open spec fn container_symbol_name(containers: Seq<ContainerOwnedView>, ci: usize, sym: u64) -> Option<Seq<char>> {
    if ci < containers.len() && containers[ci as int].symbols.names.contains_key(sym) {
        Some(containers[ci as int].symbols.names[sym])
    } else {
        None
    }
}

/// The URI an anchor declares, as a string or a symbol of its container.
pub open spec fn anchor_uri(containers: Seq<ContainerOwnedView>, f: FragmentView) -> Option<Seq<char>> {
    match field_of(f.value, FIELD_ANCHOR_URI) {
        Some(IonModel::String(u)) => Some(u),
        Some(IonModel::Symbol(sym)) => container_symbol_name(containers, f.container_index, sym),
        _ => None,
    }
}

/// The position an anchor declares: `$183` as an integer, or its `$155`.
pub open spec fn anchor_position(f: FragmentView) -> Option<u32> {
    match field_of(f.value, FIELD_ANCHOR_POSITION) {
        Some(v) => {
            let i = match int_of(v) {
                Some(i) => Some(i),
                None => int_field(v, FIELD_NAV_TARGET_ID),
            };
            match i {
                Some(i) => if 0 <= i <= u32::MAX {
                    Some(i as u32)
                } else {
                    None
                },
                None => None,
            }
        },
        None => None,
    }
}

pub open spec fn anchor_target(containers: Seq<ContainerOwnedView>, f: FragmentView) -> Option<LinkTargetView> {
    match anchor_uri(containers, f) {
        Some(u) => Some(LinkTargetView::Uri(u)),
        None => match anchor_position(f) {
            Some(p) => Some(LinkTargetView::Position(p)),
            None => None,
        },
    }
}

/// What one anchor fragment does to the link targets: a second, different
/// target for the same container and symbol makes the symbol ambiguous.
pub open spec fn link_step(
    links: Map<(usize, u64), LinkTargetView>,
    features: Set<Seq<char>>,
    containers: Seq<ContainerOwnedView>,
    f: FragmentView,
) -> (Map<(usize, u64), LinkTargetView>, Set<Seq<char>>) {
    match symbol_field(f.value, FIELD_ANCHOR_NAME) {
        None => (links, features),
        Some(sym) => match anchor_target(containers, f) {
            None => (links, features),
            Some(t) => {
                let key = (f.container_index, sym);
                if links.contains_key(key) && links[key] != t {
                    (links.remove(key), features.insert("kfx-link-target-ambiguous"@))
                } else {
                    (links.insert(key, t), features)
                }
            },
        },
    }
}

fn same_link_target(a: &KfxLinkTarget, b: &KfxLinkTarget) -> (r: bool)
    ensures
        r == (a@ == b@),
{
    match (a, b) {
        (KfxLinkTarget::Position(x), KfxLinkTarget::Position(y)) => *x == *y,
        (KfxLinkTarget::Uri(x), KfxLinkTarget::Uri(y)) => str_eq(x.as_str(), y.as_str()),
        _ => false,
    }
}

pub fn symbol_name_of(containers: &Vec<NativeContainerOwned>, ci: usize, sym: u64) -> (r: Option<String>)
    ensures
        opt_string_view(r) == container_symbol_name(container_views(containers@), ci, sym),
{
    if ci < containers.len() {
        let ghost cv = container_views(containers@);
        assert(cv[ci as int] == containers@[ci as int]@);
        match containers[ci].symbols.names.get(&sym) {
            Some(name) => Some(copy_string(name)),
            None => None,
        }
    } else {
        None
    }
}

pub open spec fn opt_string_view(s: Option<String>) -> Option<Seq<char>> {
    match s {
        Some(x) => Some(x@),
        None => None,
    }
}

/// Records the target of one `$266` anchor fragment.
pub fn collect_link_target(
    containers: &Vec<NativeContainerOwned>,
    link_targets: &mut BTreeMap<(usize, u64), KfxLinkTarget>,
    unknown_features: &mut StringSet,
    fragment: &NativeFragment,
)
    requires
        old(unknown_features).wf(),
    ensures
        final(unknown_features).wf(),
        (link_views(final(link_targets)@), final(unknown_features).set()) == link_step(
            link_views(old(link_targets)@),
            old(unknown_features).set(),
            container_views(containers@),
            fragment@,
        ),
{
    let value = &fragment.value;
    let symbol = match symbol_field_of(value, FIELD_ANCHOR_NAME) {
        Some(s) => s,
        None => {
            return;
        },
    };
    let uri: Option<String> = match struct_get(value, FIELD_ANCHOR_URI) {
        Some(IonValue::String(u)) => Some(copy_string(u)),
        Some(IonValue::Symbol(sym)) => symbol_name_of(containers, fragment.container_index, *sym),
        _ => None,
    };
    let target = match uri {
        Some(u) => KfxLinkTarget::Uri(u),
        None => {
            let position: Option<i64> = match struct_get(value, FIELD_ANCHOR_POSITION) {
                Some(v) => match as_int(v) {
                    Some(i) => Some(i),
                    None => int_field_of(v, FIELD_NAV_TARGET_ID),
                },
                None => None,
            };
            match position {
                Some(i) => if i >= 0 && i <= 0xffff_ffff {
                    KfxLinkTarget::Position(i as u32)
                } else {
                    return;
                },
                None => {
                    return;
                },
            }
        },
    };
    let key = (fragment.container_index, symbol);
    let ghost lv = link_views(link_targets@);
    let ambiguous = match link_targets.get(&key) {
        Some(existing) => {
            assert(lv.contains_key(key) && lv[key] == existing@);
            !same_link_target(existing, &target)
        },
        None => {
            assert(!lv.contains_key(key));
            false
        },
    };
    if ambiguous {
        link_targets.remove(&key);
        assert(link_views(link_targets@) =~= lv.remove(key));
        unknown_features.insert_str("kfx-link-target-ambiguous");
        return;
    }
    let ghost t = target@;
    link_targets.insert(key, target);
    assert(link_views(link_targets@) =~= lv.insert(key, t));
}

// ---------------------------------------------------------------------------
// Limitations and recovery.
// ---------------------------------------------------------------------------

pub open spec fn inline_structure_message() -> Seq<char> {
    "Amazon KFX block structure and observed style symbols are reconstructed; advanced inline structure and computed styles outside the supported symbol map are not fully reconstructed. `$179` hyperlinks backed by `$266` anchors are resolved when their target location is proven."@
}

pub open spec fn resource_roles_message() -> Seq<char> {
    "Amazon KFX resource roles outside the supported direct-media subset are not fully reconstructed in the semantic IR."@
}

pub open spec fn navigation_missing_message() -> Seq<char> {
    "No usable Amazon KFX navigation hierarchy was recovered from the input."@
}

pub open spec fn has_content_fragment(frags: Seq<FragmentView>) -> bool {
    exists|i: int| 0 <= i < frags.len() && #[trigger] frags[i].fragment_type == CONTENT_FRAGMENT_TYPE
}

/// The limitations a read model reports: content fragments whose inline
/// structure is partly reconstructed, resources whose roles are partly
/// reconstructed, and a book without navigation.
pub open spec fn limitations_spec(m: NativeModelView) -> NativeModelView {
    let (u1, l1) = if has_content_fragment(m.fragments) {
        (
            m.unknown_features.insert("kfx-advanced-inline-structure-and-computed-style-decoding-incomplete"@),
            m.input_loss.push(inline_structure_message()),
        )
    } else {
        (m.unknown_features, m.input_loss)
    };
    let (u2, l2) = if m.resources.len() > 0 {
        (u1.insert("kfx-resource-role-and-placement-decoding-incomplete"@), l1.push(resource_roles_message()))
    } else {
        (u1, l1)
    };
    let (u3, l3) = if m.fragments.len() > 0 && m.navigation.len() == 0 {
        (u2.insert("kfx-navigation-not-recovered"@), l2.push(navigation_missing_message()))
    } else {
        (u2, l2)
    };
    NativeModelView { unknown_features: u3, input_loss: l3, ..m }
}

fn fragments_have_content(fragments: &Vec<NativeFragment>) -> (r: bool)
    ensures
        r == has_content_fragment(fragment_views(fragments@)),
{
    let ghost fv = fragment_views(fragments@);
    let mut i: usize = 0;
    while i < fragments.len()
        invariant
            0 <= i <= fragments@.len(),
            fv == fragment_views(fragments@),
            forall|k: int| 0 <= k < i ==> #[trigger] fv[k].fragment_type != CONTENT_FRAGMENT_TYPE,
        decreases fragments@.len() - i,
    {
        assert(fv[i as int] == fragments@[i as int]@);
        if fragments[i].fragment_type == CONTENT_FRAGMENT_TYPE {
            assert(fv[i as int].fragment_type == CONTENT_FRAGMENT_TYPE);
            return true;
        }
        i = i + 1;
    }
    false
}

/// Records what the reader could not fully reconstruct.
pub fn record_native_limitations(model: &mut NativeModel)
    requires
        old(model).wf(),
    ensures
        final(model).wf(),
        final(model)@ == limitations_spec(old(model)@),
{
    let ghost m0 = model@;
    if fragments_have_content(&model.fragments) {
        model.unknown_features.insert_str("kfx-advanced-inline-structure-and-computed-style-decoding-incomplete");
        let ghost before = model.input_loss@;
        model.input_loss.push(owned("Amazon KFX block structure and observed style symbols are reconstructed; advanced inline structure and computed styles outside the supported symbol map are not fully reconstructed. `$179` hyperlinks backed by `$266` anchors are resolved when their target location is proven."));
        assert(strs(model.input_loss@) =~= strs(before).push(inline_structure_message()));
    }
    let ghost m1 = model@;
    if model.resources.len() > 0 {
        model.unknown_features.insert_str("kfx-resource-role-and-placement-decoding-incomplete");
        let ghost before = model.input_loss@;
        model.input_loss.push(owned("Amazon KFX resource roles outside the supported direct-media subset are not fully reconstructed in the semantic IR."));
        assert(strs(model.input_loss@) =~= strs(before).push(resource_roles_message()));
    }
    if model.fragments.len() > 0 && model.navigation.len() == 0 {
        model.unknown_features.insert_str("kfx-navigation-not-recovered");
        let ghost before = model.input_loss@;
        model.input_loss.push(owned("No usable Amazon KFX navigation hierarchy was recovered from the input."));
        assert(strs(model.input_loss@) =~= strs(before).push(navigation_missing_message()));
    }
}

/// The recovery actions a report lists: only a recovery-mode read lists one.
pub open spec fn recovery_actions_spec(mode: ParseMode, m: NativeModelView) -> Seq<Seq<char>> {
    if mode != ParseMode::Recovery {
        Seq::empty()
    } else if m.input_loss.len() == 0 {
        seq!["validated all bounded Ion/entity ranges without recovery"@]
    } else {
        seq!["retained readable fragments and reported unrecovered fields"@]
    }
}

pub fn recovery_actions(mode: ParseMode, model: &NativeModel) -> (r: Vec<String>)
    ensures
        strs(r@) == recovery_actions_spec(mode, model@),
{
    let mut out: Vec<String> = Vec::new();
    if mode != ParseMode::Recovery {
        assert(strs(out@) =~= Seq::<Seq<char>>::empty());
        return out;
    }
    if model.input_loss.len() == 0 {
        out.push(owned("validated all bounded Ion/entity ranges without recovery"));
    } else {
        out.push(owned("retained readable fragments and reported unrecovered fields"));
    }
    assert(strs(out@) =~= recovery_actions_spec(mode, model@));
    out
}

// ---------------------------------------------------------------------------
// The fragment pass.
// ---------------------------------------------------------------------------

pub const NAVIGATION_FRAGMENT_TYPE: u32 = 389;

pub open spec fn duplicate_message(f: FragmentView) -> Seq<char> {
    "duplicate fragment entity/type pair "@ + decimal(f.entity_id as nat) + "/"@ + decimal(f.fragment_type as nat)
}

pub open spec fn no_fragments_message() -> Seq<char> {
    "CONT entity index contained no Ion fragments"@
}

/// The entity/type pairs of a sequence of fragments.
pub open spec fn fragment_pairs(frags: Seq<FragmentView>) -> Set<(u32, u32)>
    decreases frags.len(),
{
    if frags.len() == 0 {
        Set::empty()
    } else {
        fragment_pairs(frags.drop_last()).insert((frags.last().entity_id, frags.last().fragment_type))
    }
}

/// What reading one fragment does to the model; `seen` holds the
/// entity/type pairs of the fragments read before it.
pub open spec fn fragment_pass(m: NativeModelView, f: FragmentView, seen: Set<(u32, u32)>) -> NativeModelView {
    let warnings = if seen.contains((f.entity_id, f.fragment_type)) {
        m.warnings.push(duplicate_message(f))
    } else {
        m.warnings
    };
    let (md, ids, fids) = metadata_spec((m.metadata, m.cover_resource_ids, m.cover_resource_fids), f.value);
    let tables = tables_walk(m.string_tables, f.value);
    let resources = resources_walk(m.resources, f.value, f.container_index);
    let (links, feats1) = if f.fragment_type == ANCHOR_FRAGMENT_TYPE {
        link_step(m.link_targets, m.unknown_features, m.containers, f)
    } else {
        (m.link_targets, m.unknown_features)
    };
    let (nav, feats2, loss) = if f.fragment_type == NAVIGATION_FRAGMENT_TYPE {
        navigation_apply(m.navigation, feats1, m.input_loss, navigation_spec(m.containers, m.fragments, f.container_index, f.value))
    } else {
        (m.navigation, feats1, m.input_loss)
    };
    let feats3 = if f.fragment_type == 0 {
        feats2.insert("unknown-fragment-type-0"@)
    } else {
        feats2
    };
    NativeModelView {
        warnings,
        metadata: md,
        cover_resource_ids: ids,
        cover_resource_fids: fids,
        string_tables: tables,
        resources,
        link_targets: links,
        navigation: nav,
        unknown_features: feats3,
        input_loss: loss,
        ..m
    }
}

pub open spec fn fragments_fold(m: NativeModelView, frags: Seq<FragmentView>) -> NativeModelView
    decreases frags.len(),
{
    if frags.len() == 0 {
        m
    } else {
        fragment_pass(fragments_fold(m, frags.drop_last()), frags.last(), fragment_pairs(frags.drop_last()))
    }
}

/// The model after reading every fragment in order; a strict read of a
/// book without fragments fails, another notes the loss.
pub open spec fn fragment_values_spec(m: NativeModelView, mode: ParseMode) -> Result<NativeModelView, KfxErrorView> {
    let m1 = fragments_fold(m, m.fragments);
    if m.fragments.len() == 0 {
        if mode == ParseMode::Strict {
            Err(KfxErrorView::Semantic(no_fragments_message()))
        } else {
            Ok(NativeModelView { input_loss: m1.input_loss.push(no_fragments_message()), ..m1 })
        }
    } else {
        Ok(m1)
    }
}

proof fn lemma_fold_keeps(m: NativeModelView, frags: Seq<FragmentView>)
    ensures
        fragments_fold(m, frags).fragments == m.fragments,
        fragments_fold(m, frags).containers == m.containers,
        fragments_fold(m, frags).symbols == m.symbols,
        fragments_fold(m, frags).drm_detected == m.drm_detected,
    decreases frags.len(),
{
    if frags.len() > 0 {
        lemma_fold_keeps(m, frags.drop_last());
    }
}

/// Reads the metadata, string tables, inline resources, anchors and
/// navigation of every fragment, in order.
pub fn decode_fragment_values(model: &mut NativeModel, mode: ParseMode) -> (r: Result<(), AmazonKfxError>)
    requires
        old(model).wf(),
    ensures
        final(model).wf(),
        match fragment_values_spec(old(model)@, mode) {
            Ok(m) => r is Ok && final(model)@ == m,
            Err(e) => r matches Err(x) && x@ == e,
        },
{
    let ghost start = model@;
    let mut ids: BTreeSet<(u32, u32)> = BTreeSet::new();
    let mut i: usize = 0;
    proof {
        assert(start.fragments.take(0) =~= Seq::<FragmentView>::empty());
        assert(ids@ =~= fragment_pairs(Seq::<FragmentView>::empty()));
    }
    while i < model.fragments.len()
        invariant
            0 <= i <= model.fragments@.len(),
            model.wf(),
            model@.fragments == start.fragments,
            model@.containers == start.containers,
            ids@ == fragment_pairs(start.fragments.take(i as int)),
            model@ == fragments_fold(start, start.fragments.take(i as int)),
        decreases model.fragments@.len() - i,
    {
        let ghost f = model.fragments@[i as int]@;
        let ghost m0 = model@;
        proof {
            assert(start.fragments.take(i + 1).drop_last() =~= start.fragments.take(i as int));
            assert(start.fragments[i as int] == f);
            lemma_fold_keeps(start, start.fragments.take(i as int));
        }
        let entity_id = model.fragments[i].entity_id;
        let fragment_type = model.fragments[i].fragment_type;
        let ci = model.fragments[i].container_index;
        if !ids.insert((entity_id, fragment_type)) {
            let e = decimal_string(entity_id as u64);
            let t = decimal_string(fragment_type as u64);
            let head = join2("duplicate fragment entity/type pair ", e.as_str());
            let head2 = join2(head.as_str(), "/");
            let message = join2(head2.as_str(), t.as_str());
            let ghost before = model.warnings@;
            model.warnings.push(message);
            assert(strs(model.warnings@) =~= strs(before).push(duplicate_message(f)));
        }
        collect_metadata(&mut model.metadata, &mut model.cover_resource_ids, &mut model.cover_resource_fids, &model.fragments[i].value);
        collect_string_tables(&mut model.string_tables, &model.fragments[i].value);
        collect_resources(&mut model.resources, &model.fragments[i].value, ci);
        if fragment_type == ANCHOR_FRAGMENT_TYPE {
            collect_link_target(&model.containers, &mut model.link_targets, &mut model.unknown_features, &model.fragments[i]);
        }
        if fragment_type == NAVIGATION_FRAGMENT_TYPE {
            collect_navigation(
                &model.containers,
                &model.fragments,
                &mut model.navigation,
                &mut model.unknown_features,
                &mut model.input_loss,
                ci,
                &model.fragments[i].value,
            );
        }
        if fragment_type == 0 {
            model.unknown_features.insert_str("unknown-fragment-type-0");
        }
        proof {
            assert(model@ =~= fragment_pass(m0, f, fragment_pairs(start.fragments.take(i as int))));
        }
        i = i + 1;
    }
    proof {
        assert(start.fragments.take(i as int) =~= start.fragments);
    }
    if ids.is_empty() {
        assert(start.fragments.len() == 0) by {
            if start.fragments.len() > 0 {
                assert(fragment_pairs(start.fragments).contains((start.fragments.last().entity_id, start.fragments.last().fragment_type)));
            }
        }
        if mode == ParseMode::Strict {
            return Err(AmazonKfxError::Semantic(owned("CONT entity index contained no Ion fragments")));
        }
        let ghost before = model.input_loss@;
        model.input_loss.push(owned("CONT entity index contained no Ion fragments"));
        assert(strs(model.input_loss@) =~= strs(before).push(no_fragments_message()));
    } else {
        assert(start.fragments.len() > 0) by {
            if start.fragments.len() == 0 {
                assert(fragment_pairs(start.fragments) =~= Set::<(u32, u32)>::empty());
            }
        }
    }
    Ok(())
}

} // verus!
