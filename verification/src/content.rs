//! Observations on KFX content trees: field counts, caption and note
//! structure, and the strings a content node refers to.
use vstd::prelude::*;
use std::collections::BTreeMap;
use crate::ion::{IonModel, IonValue, models, field_models, lemma_models_index, lemma_field_models_index};
use crate::links::{FIELD_TEXT_STYLE_EVENTS, FIELD_TEXT_STYLE_KIND, FIELD_TEXT_STYLE_LINK_TARGET};
use crate::native::{strs, table_views};
use crate::text::{chars_of, owned, trim, trim_chars};
use crate::value::{
    as_int, as_string, field_of, int_field, items_of, list_items, string_of, struct_get,
    symbol_field, symbol_field_of, int_field_of,
};

verus! {

pub const FIELD_CONTENT_NODE_TYPE: u64 = 159;
pub const FIELD_CONTENT_ORACLE_RESOURCE_SYMBOL: u64 = 175;
pub const FIELD_CONTENT_STRING_REFERENCE: u64 = 145;
pub const FIELD_FRAGMENT_TEXT: u64 = 584;
pub const FIELD_FRAGMENT_ID: u64 = 4;
pub const FIELD_FRAGMENT_STRING_INDEX: u64 = 403;
pub const KFX_IMAGE_CONTAINER_NODE_TYPE: u64 = 270;
pub const KFX_IMAGE_CAPTION_NODE_TYPE: u64 = 269;
pub const KFX_IMAGE_RECORD_NODE_TYPE: u64 = 271;
pub const KFX_NOTE_DISPLAY_KIND: u64 = 617;

/// `n`, or `usize::MAX` when it does not fit.
pub open spec fn sat(n: nat) -> usize {
    if n > usize::MAX {
        usize::MAX
    } else {
        n as usize
    }
}

proof fn lemma_sat_add(a: nat, b: nat)
    ensures
        (if sat(a) + sat(b) > usize::MAX { usize::MAX } else { (sat(a) + sat(b)) as usize }) == sat(a + b),
{
}

// ---------------------------------------------------------------------------
// Counting fields.
// ---------------------------------------------------------------------------

/// How many struct fields named `id` occur anywhere in `m`.
pub open spec fn count_field(m: IonModel, id: u64) -> nat
    decreases m,
{
    match m {
        IonModel::Struct(fields) => count_field_fields(fields, id),
        IonModel::List(items) => count_field_items(items, id),
        IonModel::SExp(items) => count_field_items(items, id),
        IonModel::Annotation { value, .. } => count_field(*value, id),
        _ => 0,
    }
}

pub open spec fn count_field_items(s: Seq<IonModel>, id: u64) -> nat
    decreases s,
{
    if s.len() == 0 {
        0
    } else {
        count_field_items(s.drop_last(), id) + count_field(s.last(), id)
    }
}

pub open spec fn count_field_fields(s: Seq<(u64, IonModel)>, id: u64) -> nat
    decreases s,
{
    if s.len() == 0 {
        0
    } else {
        proof {
            assert(decreases_to!(s => s[s.len() - 1].1));
        }
        count_field_fields(s.drop_last(), id) + (if s.last().0 == id { 1nat } else { 0nat })
            + count_field(s.last().1, id)
    }
}

/// How many fields named `field_id` occur in `value` (saturating).
pub fn count_field_occurrences(value: &IonValue, field_id: u64) -> (r: usize)
    ensures
        r == sat(count_field(value@, field_id)),
    decreases value,
{
    match value {
        IonValue::Struct(fields) => count_fields_in(fields, field_id),
        IonValue::List(items) => count_fields_in_items(items, field_id),
        IonValue::SExp(items) => count_fields_in_items(items, field_id),
        IonValue::Annotation { value: inner, .. } => count_field_occurrences(inner, field_id),
        _ => 0,
    }
}

fn count_fields_in_items(items: &Vec<IonValue>, field_id: u64) -> (r: usize)
    ensures
        r == sat(count_field_items(models(items@), field_id)),
    decreases items,
{
    let ghost ms = models(items@);
    proof {
        lemma_models_index(items@);
    }
    let mut total: usize = 0;
    let mut i: usize = 0;
    while i < items.len()
        invariant
            0 <= i <= items@.len(),
            ms == models(items@),
            ms.len() == items@.len(),
            forall|k: int| 0 <= k < items@.len() ==> #[trigger] ms[k] == items@[k]@,
            total == sat(count_field_items(ms.subrange(0, i as int), field_id)),
        decreases items@.len() - i,
    {
        assert(decreases_to!(items => items@[i as int]));
        let c = count_field_occurrences(&items[i], field_id);
        proof {
            let next = ms.subrange(0, i + 1);
            assert(next.drop_last() =~= ms.subrange(0, i as int));
            lemma_sat_add(count_field_items(ms.subrange(0, i as int), field_id), count_field(ms[i as int], field_id));
        }
        total = total.saturating_add(c);
        i = i + 1;
    }
    assert(ms.subrange(0, ms.len() as int) =~= ms);
    total
}

fn count_fields_in(fields: &Vec<(u64, IonValue)>, field_id: u64) -> (r: usize)
    ensures
        r == sat(count_field_fields(field_models(fields@), field_id)),
    decreases fields,
{
    let ghost fs = field_models(fields@);
    proof {
        lemma_field_models_index(fields@);
    }
    let mut total: usize = 0;
    let mut i: usize = 0;
    while i < fields.len()
        invariant
            0 <= i <= fields@.len(),
            fs == field_models(fields@),
            fs.len() == fields@.len(),
            forall|k: int| 0 <= k < fields@.len() ==> #[trigger] fs[k] == (fields@[k].0, fields@[k].1@),
            total == sat(count_field_fields(fs.subrange(0, i as int), field_id)),
        decreases fields@.len() - i,
    {
        assert(decreases_to!(fields => fields@[i as int].1));
        let here: usize = if fields[i].0 == field_id { 1 } else { 0 };
        let c = count_field_occurrences(&fields[i].1, field_id);
        proof {
            let next = fs.subrange(0, i + 1);
            assert(next.drop_last() =~= fs.subrange(0, i as int));
            let a = count_field_fields(fs.subrange(0, i as int), field_id);
            let h: nat = if fs[i as int].0 == field_id { 1nat } else { 0nat };
            lemma_sat_add(a, h);
            lemma_sat_add(a + h, count_field(fs[i as int].1, field_id));
        }
        total = total.saturating_add(here);
        total = total.saturating_add(c);
        i = i + 1;
    }
    assert(fs.subrange(0, fs.len() as int) =~= fs);
    total
}

// ---------------------------------------------------------------------------
// Counting blobs.
// ---------------------------------------------------------------------------

/// How many blobs `m` holds, at any depth.
pub open spec fn blob_count(m: IonModel) -> nat
    decreases m,
{
    match m {
        IonModel::Blob(_) => 1,
        IonModel::Struct(fields) => blob_count_fields(fields),
        IonModel::List(items) => blob_count_items(items),
        IonModel::SExp(items) => blob_count_items(items),
        IonModel::Annotation { value, .. } => blob_count(*value),
        _ => 0,
    }
}

pub open spec fn blob_count_items(s: Seq<IonModel>) -> nat
    decreases s,
{
    if s.len() == 0 {
        0
    } else {
        blob_count_items(s.drop_last()) + blob_count(s.last())
    }
}

pub open spec fn blob_count_fields(s: Seq<(u64, IonModel)>) -> nat
    decreases s,
{
    if s.len() == 0 {
        0
    } else {
        proof {
            assert(decreases_to!(s => s[s.len() - 1].1));
        }
        blob_count_fields(s.drop_last()) + blob_count(s.last().1)
    }
}

/// How many blobs a value holds (saturating).
pub fn ion_blob_count(value: &IonValue) -> (r: usize)
    ensures
        r == sat(blob_count(value@)),
    decreases value,
{
    match value {
        IonValue::Blob(_) => 1,
        IonValue::Struct(fields) => blob_fields(fields),
        IonValue::List(items) => blob_items(items),
        IonValue::SExp(items) => blob_items(items),
        IonValue::Annotation { value: inner, .. } => ion_blob_count(inner),
        _ => 0,
    }
}

fn blob_fields(fields: &Vec<(u64, IonValue)>) -> (r: usize)
    ensures
        r == sat(blob_count_fields(field_models(fields@))),
    decreases fields,
{
    let ghost fs = field_models(fields@);
    proof {
        lemma_field_models_index(fields@);
    }
    let mut total: usize = 0;
    let mut i: usize = 0;
    while i < fields.len()
        invariant
            0 <= i <= fields@.len(),
            fs == field_models(fields@),
            fs.len() == fields@.len(),
            forall|k: int| 0 <= k < fields@.len() ==> #[trigger] fs[k] == (fields@[k].0, fields@[k].1@),
            total == sat(blob_count_fields(fs.subrange(0, i as int))),
        decreases fields@.len() - i,
    {
        assert(decreases_to!(fields => fields@[i as int].1));
        let c = ion_blob_count(&fields[i].1);
        proof {
            assert(fs.subrange(0, i + 1).drop_last() =~= fs.subrange(0, i as int));
            lemma_sat_add(blob_count_fields(fs.subrange(0, i as int)), blob_count(fs[i as int].1));
        }
        total = total.saturating_add(c);
        i = i + 1;
    }
    assert(fs.subrange(0, fs.len() as int) =~= fs);
    total

}

fn blob_items(items: &Vec<IonValue>) -> (r: usize)
    ensures
        r == sat(blob_count_items(models(items@))),
    decreases items,
{
    let ghost ms = models(items@);
    proof {
        lemma_models_index(items@);
    }
    let mut total: usize = 0;
    let mut i: usize = 0;
    while i < items.len()
        invariant
            0 <= i <= items@.len(),
            ms == models(items@),
            ms.len() == items@.len(),
            forall|k: int| 0 <= k < items@.len() ==> #[trigger] ms[k] == items@[k]@,
            total == sat(blob_count_items(ms.subrange(0, i as int))),
        decreases items@.len() - i,
    {
        assert(decreases_to!(items => items@[i as int]));
        let c = ion_blob_count(&items[i]);
        proof {
            assert(ms.subrange(0, i + 1).drop_last() =~= ms.subrange(0, i as int));
            lemma_sat_add(blob_count_items(ms.subrange(0, i as int)), blob_count(ms[i as int]));
        }
        total = total.saturating_add(c);
        i = i + 1;
    }
    assert(ms.subrange(0, ms.len() as int) =~= ms);
    total
}


// ---------------------------------------------------------------------------
// Visible caption text.
// ---------------------------------------------------------------------------

/// The node type symbol of a content node.
pub open spec fn node_type(m: IonModel) -> Option<u64> {
    symbol_field(m, FIELD_CONTENT_NODE_TYPE)
}

/// `m` holds text that a reader sees: a non-blank string, a string
/// reference, or a non-blank `$584` text, outside image records (whose
/// `$584` is alternative text).
pub open spec fn caption_text(m: IonModel) -> bool
    decreases m,
{
    match m {
        IonModel::Struct(fields) => node_type(m) != Some(KFX_IMAGE_RECORD_NODE_TYPE) && caption_text_fields(fields),
        IonModel::List(items) => caption_text_items(items),
        IonModel::SExp(items) => caption_text_items(items),
        IonModel::Annotation { value, .. } => caption_text(*value),
        IonModel::String(t) => trim(t).len() > 0,
        _ => false,
    }
}

pub open spec fn caption_text_items(s: Seq<IonModel>) -> bool
    decreases s,
{
    s.len() > 0 && (caption_text_items(s.drop_last()) || caption_text(s.last()))
}

pub open spec fn caption_text_fields(s: Seq<(u64, IonModel)>) -> bool
    decreases s,
{
    if s.len() == 0 {
        false
    } else {
        proof {
            assert(decreases_to!(s => s[s.len() - 1].1));
        }
        let (f, c) = s.last();
        caption_text_fields(s.drop_last()) || if f == FIELD_CONTENT_STRING_REFERENCE {
            !(c is Null)
        } else if f == FIELD_FRAGMENT_TEXT {
            match string_of(c) {
                Some(t) => trim(t).len() > 0,
                None => false,
            }
        } else {
            caption_text(c)
        }
    }
}

pub(crate) fn is_blank(text: &str) -> (r: bool)
    ensures
        r == (trim(text@).len() == 0),
{
    let chars = chars_of(text);
    let t = trim_chars(chars.as_slice());
    t.len() == 0
}

fn node_type_is(value: &IonValue, t: u64) -> (r: bool)
    ensures
        r == (node_type(value@) == Some(t)),
{
    match symbol_field_of(value, FIELD_CONTENT_NODE_TYPE) {
        Some(x) => x == t,
        None => false,
    }
}

/// Whether a content tree holds visible caption text.
pub fn contains_caption_reading_text(value: &IonValue) -> (r: bool)
    ensures
        r == caption_text(value@),
    decreases value,
{
    match value {
        IonValue::Struct(fields) => {
            if node_type_is(value, KFX_IMAGE_RECORD_NODE_TYPE) {
                return false;
            }
            caption_in_fields(fields)
        },
        IonValue::List(items) => caption_in_items(items),
        IonValue::SExp(items) => caption_in_items(items),
        IonValue::Annotation { value: inner, .. } => contains_caption_reading_text(inner),
        IonValue::String(text) => !is_blank(text.as_str()),
        _ => false,
    }
}

fn caption_in_items(items: &Vec<IonValue>) -> (r: bool)
    ensures
        r == caption_text_items(models(items@)),
    decreases items,
{
    let ghost ms = models(items@);
    proof {
        lemma_models_index(items@);
    }
    let mut found = false;
    let mut i: usize = 0;
    while i < items.len()
        invariant
            0 <= i <= items@.len(),
            ms == models(items@),
            ms.len() == items@.len(),
            forall|k: int| 0 <= k < items@.len() ==> #[trigger] ms[k] == items@[k]@,
            found == caption_text_items(ms.subrange(0, i as int)),
        decreases items@.len() - i,
    {
        assert(decreases_to!(items => items@[i as int]));
        assert(ms.subrange(0, i + 1).drop_last() =~= ms.subrange(0, i as int));
        if !found {
            found = contains_caption_reading_text(&items[i]);
        }
        i = i + 1;
    }
    assert(ms.subrange(0, ms.len() as int) =~= ms);
    found
}

fn caption_in_fields(fields: &Vec<(u64, IonValue)>) -> (r: bool)
    ensures
        r == caption_text_fields(field_models(fields@)),
    decreases fields,
{
    let ghost fs = field_models(fields@);
    proof {
        lemma_field_models_index(fields@);
    }
    let mut found = false;
    let mut i: usize = 0;
    while i < fields.len()
        invariant
            0 <= i <= fields@.len(),
            fs == field_models(fields@),
            fs.len() == fields@.len(),
            forall|k: int| 0 <= k < fields@.len() ==> #[trigger] fs[k] == (fields@[k].0, fields@[k].1@),
            found == caption_text_fields(fs.subrange(0, i as int)),
        decreases fields@.len() - i,
    {
        assert(decreases_to!(fields => fields@[i as int].1));
        assert(fs.subrange(0, i + 1).drop_last() =~= fs.subrange(0, i as int));
        if !found {
            let f = fields[i].0;
            let child = &fields[i].1;
            found = if f == FIELD_CONTENT_STRING_REFERENCE {
                match child {
                    IonValue::Null => false,
                    _ => true,
                }
            } else if f == FIELD_FRAGMENT_TEXT {
                match as_string(child) {
                    Some(t) => !is_blank(t),
                    None => false,
                }
            } else {
                contains_caption_reading_text(child)
            };
        }
        i = i + 1;
    }
    assert(fs.subrange(0, fs.len() as int) =~= fs);
    found
}

// ---------------------------------------------------------------------------
// Style events and illustrated structure.
// ---------------------------------------------------------------------------

/// The node has a non-empty `$142` style event list.
pub open spec fn has_styled_events(m: IonModel) -> bool {
    match field_of(m, FIELD_TEXT_STYLE_EVENTS) {
        Some(v) => match items_of(v) {
            Some(items) => items.len() > 0,
            None => false,
        },
        None => false,
    }
}

pub fn has_non_empty_text_style_events(value: &IonValue) -> (r: bool)
    ensures
        r == has_styled_events(value@),
{
    match struct_get(value, FIELD_TEXT_STYLE_EVENTS) {
        Some(v) => match list_items(v) {
            Some(items) => items.len() > 0,
            None => false,
        },
        None => false,
    }
}

/// Somewhere in `m` a caption node (`$159` = 269) has style events and
/// visible text.
pub open spec fn illustrated_caption(m: IonModel) -> bool
    decreases m,
{
    match m {
        IonModel::Struct(fields) => (node_type(m) == Some(KFX_IMAGE_CAPTION_NODE_TYPE) && has_styled_events(m)
            && caption_text(m)) || illustrated_caption_fields(fields),
        IonModel::List(items) => illustrated_caption_items(items),
        IonModel::SExp(items) => illustrated_caption_items(items),
        IonModel::Annotation { value, .. } => illustrated_caption(*value),
        _ => false,
    }
}

pub open spec fn illustrated_caption_items(s: Seq<IonModel>) -> bool
    decreases s,
{
    s.len() > 0 && (illustrated_caption_items(s.drop_last()) || illustrated_caption(s.last()))
}

pub open spec fn illustrated_caption_fields(s: Seq<(u64, IonModel)>) -> bool
    decreases s,
{
    if s.len() == 0 {
        false
    } else {
        proof {
            assert(decreases_to!(s => s[s.len() - 1].1));
        }
        illustrated_caption_fields(s.drop_last()) || illustrated_caption(s.last().1)
    }
}

/// Whether a content tree holds a styled caption with visible text.
pub fn contains_illustrated_caption_structure(value: &IonValue) -> (r: bool)
    ensures
        r == illustrated_caption(value@),
    decreases value,
{
    match value {
        IonValue::Struct(fields) => {
            if node_type_is(value, KFX_IMAGE_CAPTION_NODE_TYPE) && has_non_empty_text_style_events(value)
                && contains_caption_reading_text(value) {
                return true;
            }
            illustrated_caption_in_fields(fields)
        },
        IonValue::List(items) => illustrated_caption_in_items(items),
        IonValue::SExp(items) => illustrated_caption_in_items(items),
        IonValue::Annotation { value: inner, .. } => contains_illustrated_caption_structure(inner),
        _ => false,
    }
}

fn illustrated_caption_in_items(items: &Vec<IonValue>) -> (r: bool)
    ensures
        r == illustrated_caption_items(models(items@)),
    decreases items,
{
    let ghost ms = models(items@);
    proof {
        lemma_models_index(items@);
    }
    let mut found = false;
    let mut i: usize = 0;
    while i < items.len()
        invariant
            0 <= i <= items@.len(),
            ms == models(items@),
            ms.len() == items@.len(),
            forall|k: int| 0 <= k < items@.len() ==> #[trigger] ms[k] == items@[k]@,
            found == illustrated_caption_items(ms.subrange(0, i as int)),
        decreases items@.len() - i,
    {
        assert(decreases_to!(items => items@[i as int]));
        assert(ms.subrange(0, i + 1).drop_last() =~= ms.subrange(0, i as int));
        if !found {
            found = contains_illustrated_caption_structure(&items[i]);
        }
        i = i + 1;
    }
    assert(ms.subrange(0, ms.len() as int) =~= ms);
    found
}

fn illustrated_caption_in_fields(fields: &Vec<(u64, IonValue)>) -> (r: bool)
    ensures
        r == illustrated_caption_fields(field_models(fields@)),
    decreases fields,
{
    let ghost fs = field_models(fields@);
    proof {
        lemma_field_models_index(fields@);
    }
    let mut found = false;
    let mut i: usize = 0;
    while i < fields.len()
        invariant
            0 <= i <= fields@.len(),
            fs == field_models(fields@),
            fs.len() == fields@.len(),
            forall|k: int| 0 <= k < fields@.len() ==> #[trigger] fs[k] == (fields@[k].0, fields@[k].1@),
            found == illustrated_caption_fields(fs.subrange(0, i as int)),
        decreases fields@.len() - i,
    {
        assert(decreases_to!(fields => fields@[i as int].1));
        assert(fs.subrange(0, i + 1).drop_last() =~= fs.subrange(0, i as int));
        if !found {
            found = contains_illustrated_caption_structure(&fields[i].1);
        }
        i = i + 1;
    }
    assert(fs.subrange(0, fs.len() as int) =~= fs);
    found
}

/// Somewhere in `m` an image container (`$159` = 270) holds a styled,
/// visible caption and an image resource reference (`$175`).
pub open spec fn illustrated_image(m: IonModel) -> bool
    decreases m,
{
    match m {
        IonModel::Struct(fields) => (node_type(m) == Some(KFX_IMAGE_CONTAINER_NODE_TYPE) && illustrated_caption(m)
            && count_field(m, FIELD_CONTENT_ORACLE_RESOURCE_SYMBOL) > 0) || illustrated_image_fields(fields),
        IonModel::List(items) => illustrated_image_items(items),
        IonModel::SExp(items) => illustrated_image_items(items),
        IonModel::Annotation { value, .. } => illustrated_image(*value),
        _ => false,
    }
}

pub open spec fn illustrated_image_items(s: Seq<IonModel>) -> bool
    decreases s,
{
    s.len() > 0 && (illustrated_image_items(s.drop_last()) || illustrated_image(s.last()))
}

pub open spec fn illustrated_image_fields(s: Seq<(u64, IonModel)>) -> bool
    decreases s,
{
    if s.len() == 0 {
        false
    } else {
        proof {
            assert(decreases_to!(s => s[s.len() - 1].1));
        }
        illustrated_image_fields(s.drop_last()) || illustrated_image(s.last().1)
    }
}

/// Whether a content tree holds an illustrated image: an image container
/// with a resource reference and a styled caption that a reader sees.
pub fn contains_illustrated_image_structure(value: &IonValue) -> (r: bool)
    ensures
        r == illustrated_image(value@),
    decreases value,
{
    match value {
        IonValue::Struct(fields) => {
            if node_type_is(value, KFX_IMAGE_CONTAINER_NODE_TYPE) && contains_illustrated_caption_structure(value)
                && count_field_occurrences(value, FIELD_CONTENT_ORACLE_RESOURCE_SYMBOL) > 0 {
                return true;
            }
            illustrated_image_in_fields(fields)
        },
        IonValue::List(items) => illustrated_image_in_items(items),
        IonValue::SExp(items) => illustrated_image_in_items(items),
        IonValue::Annotation { value: inner, .. } => contains_illustrated_image_structure(inner),
        _ => false,
    }
}

fn illustrated_image_in_items(items: &Vec<IonValue>) -> (r: bool)
    ensures
        r == illustrated_image_items(models(items@)),
    decreases items,
{
    let ghost ms = models(items@);
    proof {
        lemma_models_index(items@);
    }
    let mut found = false;
    let mut i: usize = 0;
    while i < items.len()
        invariant
            0 <= i <= items@.len(),
            ms == models(items@),
            ms.len() == items@.len(),
            forall|k: int| 0 <= k < items@.len() ==> #[trigger] ms[k] == items@[k]@,
            found == illustrated_image_items(ms.subrange(0, i as int)),
        decreases items@.len() - i,
    {
        assert(decreases_to!(items => items@[i as int]));
        assert(ms.subrange(0, i + 1).drop_last() =~= ms.subrange(0, i as int));
        if !found {
            found = contains_illustrated_image_structure(&items[i]);
        }
        i = i + 1;
    }
    assert(ms.subrange(0, ms.len() as int) =~= ms);
    found
}

fn illustrated_image_in_fields(fields: &Vec<(u64, IonValue)>) -> (r: bool)
    ensures
        r == illustrated_image_fields(field_models(fields@)),
    decreases fields,
{
    let ghost fs = field_models(fields@);
    proof {
        lemma_field_models_index(fields@);
    }
    let mut found = false;
    let mut i: usize = 0;
    while i < fields.len()
        invariant
            0 <= i <= fields@.len(),
            fs == field_models(fields@),
            fs.len() == fields@.len(),
            forall|k: int| 0 <= k < fields@.len() ==> #[trigger] fs[k] == (fields@[k].0, fields@[k].1@),
            found == illustrated_image_fields(fs.subrange(0, i as int)),
        decreases fields@.len() - i,
    {
        assert(decreases_to!(fields => fields@[i as int].1));
        assert(fs.subrange(0, i + 1).drop_last() =~= fs.subrange(0, i as int));
        if !found {
            found = contains_illustrated_image_structure(&fields[i].1);
        }
        i = i + 1;
    }
    assert(fs.subrange(0, fs.len() as int) =~= fs);
    found
}

// ---------------------------------------------------------------------------
// Linked note displays.
// ---------------------------------------------------------------------------

/// A style event that displays a note: kind `$616` = 617 and a link target.
pub open spec fn note_event(e: IonModel) -> bool {
    symbol_field(e, FIELD_TEXT_STYLE_KIND) == Some(KFX_NOTE_DISPLAY_KIND)
        && symbol_field(e, FIELD_TEXT_STYLE_LINK_TARGET) is Some
}

pub open spec fn note_events(items: Seq<IonModel>) -> bool {
    exists|i: int| 0 <= i < items.len() && #[trigger] note_event(items[i])
}

/// A `$142` field whose event list holds a note display.
pub open spec fn note_field(f: u64, c: IonModel) -> bool {
    f == FIELD_TEXT_STYLE_EVENTS && match items_of(c) {
        Some(items) => note_events(items),
        None => false,
    }
}

pub open spec fn note_fields(fields: Seq<(u64, IonModel)>) -> bool {
    exists|i: int| 0 <= i < fields.len() && #[trigger] note_field(fields[i].0, fields[i].1)
}

/// Somewhere in `m` a struct has a note-display style event.
pub open spec fn linked_note(m: IonModel) -> bool
    decreases m,
{
    match m {
        IonModel::Struct(fields) => note_fields(fields) || linked_note_fields(fields),
        IonModel::List(items) => linked_note_items(items),
        IonModel::SExp(items) => linked_note_items(items),
        IonModel::Annotation { value, .. } => linked_note(*value),
        _ => false,
    }
}

pub open spec fn linked_note_items(s: Seq<IonModel>) -> bool
    decreases s,
{
    s.len() > 0 && (linked_note_items(s.drop_last()) || linked_note(s.last()))
}

pub open spec fn linked_note_fields(s: Seq<(u64, IonModel)>) -> bool
    decreases s,
{
    if s.len() == 0 {
        false
    } else {
        proof {
            assert(decreases_to!(s => s[s.len() - 1].1));
        }
        linked_note_fields(s.drop_last()) || linked_note(s.last().1)
    }
}

fn events_have_note(items: &Vec<IonValue>) -> (r: bool)
    ensures
        r == note_events(models(items@)),
{
    let ghost ms = models(items@);
    proof {
        lemma_models_index(items@);
    }
    let mut i: usize = 0;
    while i < items.len()
        invariant
            0 <= i <= items@.len(),
            ms == models(items@),
            ms.len() == items@.len(),
            forall|k: int| 0 <= k < items@.len() ==> #[trigger] ms[k] == items@[k]@,
            forall|k: int| 0 <= k < i ==> !#[trigger] note_event(ms[k]),
        decreases items@.len() - i,
    {
        let e = &items[i];
        let kind_is_note = match symbol_field_of(e, FIELD_TEXT_STYLE_KIND) {
            Some(k) => k == KFX_NOTE_DISPLAY_KIND,
            None => false,
        };
        if kind_is_note && symbol_field_of(e, FIELD_TEXT_STYLE_LINK_TARGET).is_some() {
            assert(note_event(ms[i as int]));
            return true;
        }
        i = i + 1;
    }
    false
}

fn fields_have_note(fields: &Vec<(u64, IonValue)>) -> (r: bool)
    ensures
        r == note_fields(field_models(fields@)),
{
    let ghost fs = field_models(fields@);
    proof {
        lemma_field_models_index(fields@);
    }
    let mut i: usize = 0;
    while i < fields.len()
        invariant
            0 <= i <= fields@.len(),
            fs == field_models(fields@),
            fs.len() == fields@.len(),
            forall|k: int| 0 <= k < fields@.len() ==> #[trigger] fs[k] == (fields@[k].0, fields@[k].1@),
            forall|k: int| 0 <= k < i ==> !#[trigger] note_field(fs[k].0, fs[k].1),
        decreases fields@.len() - i,
    {
        if fields[i].0 == FIELD_TEXT_STYLE_EVENTS {
            match list_items(&fields[i].1) {
                Some(items) => {
                    if events_have_note(items) {
                        assert(note_field(fs[i as int].0, fs[i as int].1));
                        return true;
                    }
                },
                None => {},
            }
        }
        assert(!note_field(fs[i as int].0, fs[i as int].1));
        i = i + 1;
    }
    false
}

/// Whether a content tree holds a note-display link.
pub fn contains_linked_note_display(value: &IonValue) -> (r: bool)
    ensures
        r == linked_note(value@),
    decreases value,
{
    match value {
        IonValue::Struct(fields) => {
            if fields_have_note(fields) {
                return true;
            }
            linked_note_in_fields(fields)
        },
        IonValue::List(items) => linked_note_in_items(items),
        IonValue::SExp(items) => linked_note_in_items(items),
        IonValue::Annotation { value: inner, .. } => contains_linked_note_display(inner),
        _ => false,
    }
}

fn linked_note_in_items(items: &Vec<IonValue>) -> (r: bool)
    ensures
        r == linked_note_items(models(items@)),
    decreases items,
{
    let ghost ms = models(items@);
    proof {
        lemma_models_index(items@);
    }
    let mut found = false;
    let mut i: usize = 0;
    while i < items.len()
        invariant
            0 <= i <= items@.len(),
            ms == models(items@),
            ms.len() == items@.len(),
            forall|k: int| 0 <= k < items@.len() ==> #[trigger] ms[k] == items@[k]@,
            found == linked_note_items(ms.subrange(0, i as int)),
        decreases items@.len() - i,
    {
        assert(decreases_to!(items => items@[i as int]));
        assert(ms.subrange(0, i + 1).drop_last() =~= ms.subrange(0, i as int));
        if !found {
            found = contains_linked_note_display(&items[i]);
        }
        i = i + 1;
    }
    assert(ms.subrange(0, ms.len() as int) =~= ms);
    found
}

fn linked_note_in_fields(fields: &Vec<(u64, IonValue)>) -> (r: bool)
    ensures
        r == linked_note_fields(field_models(fields@)),
    decreases fields,
{
    let ghost fs = field_models(fields@);
    proof {
        lemma_field_models_index(fields@);
    }
    let mut found = false;
    let mut i: usize = 0;
    while i < fields.len()
        invariant
            0 <= i <= fields@.len(),
            fs == field_models(fields@),
            fs.len() == fields@.len(),
            forall|k: int| 0 <= k < fields@.len() ==> #[trigger] fs[k] == (fields@[k].0, fields@[k].1@),
            found == linked_note_fields(fs.subrange(0, i as int)),
        decreases fields@.len() - i,
    {
        assert(decreases_to!(fields => fields@[i as int].1));
        assert(fs.subrange(0, i + 1).drop_last() =~= fs.subrange(0, i as int));
        if !found {
            found = contains_linked_note_display(&fields[i].1);
        }
        i = i + 1;
    }
    assert(fs.subrange(0, fs.len() as int) =~= fs);
    found
}

// ---------------------------------------------------------------------------
// String references.
// ---------------------------------------------------------------------------

/// The string a `{$4: table, $403: index}` reference names in `tables`.
pub open spec fn resolve_ref_spec(m: IonModel, tables: Map<u32, Seq<Seq<char>>>) -> Option<Seq<char>> {
    match (symbol_field(m, FIELD_FRAGMENT_ID), int_field(m, FIELD_FRAGMENT_STRING_INDEX)) {
        (Some(t), Some(i)) => if t <= u32::MAX && 0 <= i <= usize::MAX && tables.contains_key(t as u32) && i
            < tables[t as u32].len() {
            Some(tables[t as u32][i as int])
        } else {
            None
        },
        _ => None,
    }
}

/// Looks up a string reference in the book's string tables.
pub fn resolve_string_reference<'a>(value: &IonValue, tables: &'a BTreeMap<u32, Vec<String>>) -> (r: Option<&'a str>)
    ensures
        match r {
            Some(s) => resolve_ref_spec(value@, table_views(tables@)) == Some(s@),
            None => resolve_ref_spec(value@, table_views(tables@)) is None,
        },
{
    let table_id = match symbol_field_of(value, FIELD_FRAGMENT_ID) {
        Some(t) => if t <= 0xffff_ffff {
            t as u32
        } else {
            return None;
        },
        None => {
            return None;
        },
    };
    let index = match int_field_of(value, FIELD_FRAGMENT_STRING_INDEX) {
        Some(i) => if i >= 0 && (i as u64) <= (usize::MAX as u64) {
            i as usize
        } else {
            return None;
        },
        None => {
            return None;
        },
    };
    let ghost tv = table_views(tables@);
    match tables.get(&table_id) {
        Some(list) => {
            assert(tv.contains_key(table_id));
            assert(tv[table_id] == strs(list@));
            if index < list.len() {
                Some(list[index].as_str())
            } else {
                None
            }
        },
        None => {
            assert(!tv.contains_key(table_id));
            None
        },
    }
}

/// The strings of a content tree in reading order, literal strings and
/// resolved references alike, and how many references did not resolve.
pub open spec fn ref_walk(m: IonModel, tables: Map<u32, Seq<Seq<char>>>) -> (Seq<Seq<char>>, nat)
    decreases m,
{
    match m {
        IonModel::String(s) => (seq![s], 0),
        IonModel::Struct(fields) => {
            let head: (Seq<Seq<char>>, nat) = if field_of(m, FIELD_FRAGMENT_ID) is Some && field_of(
                m,
                FIELD_FRAGMENT_STRING_INDEX,
            ) is Some {
                match resolve_ref_spec(m, tables) {
                    Some(x) => (seq![x], 0),
                    None => (Seq::empty(), 1),
                }
            } else {
                (Seq::empty(), 0)
            };
            let rest = ref_walk_fields(fields, tables);
            (head.0 + rest.0, head.1 + rest.1)
        },
        IonModel::List(items) => ref_walk_items(items, tables),
        IonModel::SExp(items) => ref_walk_items(items, tables),
        IonModel::Annotation { value, .. } => ref_walk(*value, tables),
        _ => (Seq::empty(), 0),
    }
}

pub open spec fn ref_walk_items(s: Seq<IonModel>, tables: Map<u32, Seq<Seq<char>>>) -> (Seq<Seq<char>>, nat)
    decreases s,
{
    if s.len() == 0 {
        (Seq::empty(), 0)
    } else {
        let a = ref_walk_items(s.drop_last(), tables);
        let b = ref_walk(s.last(), tables);
        (a.0 + b.0, a.1 + b.1)
    }
}

pub open spec fn ref_walk_fields(s: Seq<(u64, IonModel)>, tables: Map<u32, Seq<Seq<char>>>) -> (Seq<Seq<char>>, nat)
    decreases s,
{
    if s.len() == 0 {
        (Seq::empty(), 0)
    } else {
        proof {
            assert(decreases_to!(s => s[s.len() - 1].1));
        }
        let a = ref_walk_fields(s.drop_last(), tables);
        let b = ref_walk(s.last().1, tables);
        (a.0 + b.0, a.1 + b.1)
    }
}

/// `*old + n`, saturating at `usize::MAX`.
pub open spec fn sat_plus(old: usize, n: nat) -> usize {
    sat((old + n) as nat)
}

fn visit_refs(
    value: &IonValue,
    tables: &BTreeMap<u32, Vec<String>>,
    unresolved: &mut usize,
    output: &mut Vec<String>,
)
    ensures
        strs(final(output)@) == strs(old(output)@) + ref_walk(value@, table_views(tables@)).0,
        *final(unresolved) == sat_plus(*old(unresolved), ref_walk(value@, table_views(tables@)).1),
    decreases value,
{
    let ghost tv = table_views(tables@);
    match value {
        IonValue::String(text) => {
            let ghost before = output@;
            output.push(owned(text.as_str()));
            assert(strs(output@) =~= strs(before) + seq![text@]);
        },
        IonValue::Struct(fields) => {
            let ghost before = output@;
            let ghost u0 = *unresolved;
            if struct_get(value, FIELD_FRAGMENT_ID).is_some() && struct_get(value, FIELD_FRAGMENT_STRING_INDEX).is_some() {
                match resolve_string_reference(value, tables) {
                    Some(text) => {
                        output.push(owned(text));
                        assert(strs(output@) =~= strs(before) + seq![text@]);
                    },
                    None => {
                        *unresolved = unresolved.saturating_add(1);
                        assert(strs(output@) =~= strs(before) + Seq::<Seq<char>>::empty());
                    },
                }
            } else {
                assert(strs(output@) =~= strs(before) + Seq::<Seq<char>>::empty());
            }
            let ghost mid = output@;
            let ghost u1 = *unresolved;
            visit_ref_fields(fields, tables, unresolved, output);
            proof {
                let w = ref_walk(value@, tv);
                let rest = ref_walk_fields(field_models(fields@), tv);
                assert(strs(output@) =~= strs(before) + w.0);
            }
        },
        IonValue::List(items) => visit_ref_items(items, tables, unresolved, output),
        IonValue::SExp(items) => visit_ref_items(items, tables, unresolved, output),
        IonValue::Annotation { value: inner, .. } => visit_refs(inner, tables, unresolved, output),
        _ => {
            assert(strs(output@) =~= strs(old(output)@) + Seq::<Seq<char>>::empty());
        },
    }
}

fn visit_ref_items(
    items: &Vec<IonValue>,
    tables: &BTreeMap<u32, Vec<String>>,
    unresolved: &mut usize,
    output: &mut Vec<String>,
)
    ensures
        strs(final(output)@) == strs(old(output)@) + ref_walk_items(models(items@), table_views(tables@)).0,
        *final(unresolved) == sat_plus(*old(unresolved), ref_walk_items(models(items@), table_views(tables@)).1),
    decreases items,
{
    let ghost tv = table_views(tables@);
    let ghost ms = models(items@);
    let ghost out0 = output@;
    let ghost u0 = *unresolved;
    proof {
        lemma_models_index(items@);
        assert(strs(out0) + Seq::<Seq<char>>::empty() =~= strs(out0));
    }
    let mut i: usize = 0;
    while i < items.len()
        invariant
            0 <= i <= items@.len(),
            tv == table_views(tables@),
            ms == models(items@),
            ms.len() == items@.len(),
            forall|k: int| 0 <= k < items@.len() ==> #[trigger] ms[k] == items@[k]@,
            strs(output@) == strs(out0) + ref_walk_items(ms.subrange(0, i as int), tv).0,
            *unresolved == sat_plus(u0, ref_walk_items(ms.subrange(0, i as int), tv).1),
        decreases items@.len() - i,
    {
        assert(decreases_to!(items => items@[i as int]));
        let ghost prev = ref_walk_items(ms.subrange(0, i as int), tv);
        visit_refs(&items[i], tables, unresolved, output);
        proof {
            assert(ms.subrange(0, i + 1).drop_last() =~= ms.subrange(0, i as int));
            let w = ref_walk(ms[i as int], tv);
            assert(strs(out0) + prev.0 + w.0 =~= strs(out0) + (prev.0 + w.0));
            lemma_sat_plus_twice(u0, prev.1, w.1);
        }
        i = i + 1;
    }
    assert(ms.subrange(0, ms.len() as int) =~= ms);
}

fn visit_ref_fields(
    fields: &Vec<(u64, IonValue)>,
    tables: &BTreeMap<u32, Vec<String>>,
    unresolved: &mut usize,
    output: &mut Vec<String>,
)
    ensures
        strs(final(output)@) == strs(old(output)@) + ref_walk_fields(field_models(fields@), table_views(tables@)).0,
        *final(unresolved) == sat_plus(*old(unresolved), ref_walk_fields(field_models(fields@), table_views(tables@)).1),
    decreases fields,
{
    let ghost tv = table_views(tables@);
    let ghost fs = field_models(fields@);
    let ghost out0 = output@;
    let ghost u0 = *unresolved;
    proof {
        lemma_field_models_index(fields@);
        assert(strs(out0) + Seq::<Seq<char>>::empty() =~= strs(out0));
    }
    let mut i: usize = 0;
    while i < fields.len()
        invariant
            0 <= i <= fields@.len(),
            tv == table_views(tables@),
            fs == field_models(fields@),
            fs.len() == fields@.len(),
            forall|k: int| 0 <= k < fields@.len() ==> #[trigger] fs[k] == (fields@[k].0, fields@[k].1@),
            strs(output@) == strs(out0) + ref_walk_fields(fs.subrange(0, i as int), tv).0,
            *unresolved == sat_plus(u0, ref_walk_fields(fs.subrange(0, i as int), tv).1),
        decreases fields@.len() - i,
    {
        assert(decreases_to!(fields => fields@[i as int].1));
        let ghost prev = ref_walk_fields(fs.subrange(0, i as int), tv);
        visit_refs(&fields[i].1, tables, unresolved, output);
        proof {
            assert(fs.subrange(0, i + 1).drop_last() =~= fs.subrange(0, i as int));
            let w = ref_walk(fs[i as int].1, tv);
            assert(strs(out0) + prev.0 + w.0 =~= strs(out0) + (prev.0 + w.0));
            lemma_sat_plus_twice(u0, prev.1, w.1);
        }
        i = i + 1;
    }
    assert(fs.subrange(0, fs.len() as int) =~= fs);
}

pub proof fn lemma_sat_plus_twice(u: usize, a: nat, b: nat)
    ensures
        sat_plus(sat_plus(u, a), b) == sat_plus(u, a + b),
{
}

/// The strings a content tree shows, in reading order; references that do
/// not resolve in `tables` are counted in `unresolved` (saturating).
pub fn referenced_strings(
    value: &IonValue,
    tables: &BTreeMap<u32, Vec<String>>,
    unresolved: &mut usize,
) -> (r: Vec<String>)
    ensures
        strs(r@) == ref_walk(value@, table_views(tables@)).0,
        *final(unresolved) == sat_plus(*old(unresolved), ref_walk(value@, table_views(tables@)).1),
{
    let mut result: Vec<String> = Vec::new();
    visit_refs(value, tables, unresolved, &mut result);
    assert(strs(Seq::<String>::empty()) =~= Seq::<Seq<char>>::empty());
    assert(Seq::<Seq<char>>::empty() + ref_walk(value@, table_views(tables@)).0 =~= ref_walk(value@, table_views(tables@)).0);
    result
}

/// The alternative text of an image record: its `$584` string unless blank.
pub open spec fn image_alt_spec(m: IonModel) -> Seq<char> {
    match field_of(m, FIELD_FRAGMENT_TEXT) {
        Some(v) => match string_of(v) {
            Some(t) => if trim(t).len() > 0 {
                t
            } else {
                Seq::empty()
            },
            None => Seq::empty(),
        },
        None => Seq::empty(),
    }
}

pub fn content_image_alt(value: &IonValue) -> (r: String)
    ensures
        r@ == image_alt_spec(value@),
{
    match struct_get(value, FIELD_FRAGMENT_TEXT) {
        Some(v) => match as_string(v) {
            Some(t) => if !is_blank(t) {
                owned(t)
            } else {
                String::new()
            },
            None => String::new(),
        },
        None => String::new(),
    }
}

/// The text of a ruby content entry: `$145`, else `$584`, as a string or a
/// string reference.
pub open spec fn ruby_text_spec(m: IonModel, tables: Map<u32, Seq<Seq<char>>>) -> Option<Seq<char>> {
    let content = match field_of(m, FIELD_CONTENT_STRING_REFERENCE) {
        Some(c) => Some(c),
        None => field_of(m, FIELD_FRAGMENT_TEXT),
    };
    match content {
        Some(c) => match string_of(c) {
            Some(s) => Some(s),
            None => resolve_ref_spec(c, tables),
        },
        None => None,
    }
}

pub fn ruby_content_text<'a>(value: &'a IonValue, string_tables: &'a BTreeMap<u32, Vec<String>>) -> (r: Option<&'a str>)
    ensures
        match r {
            Some(s) => ruby_text_spec(value@, table_views(string_tables@)) == Some(s@),
            None => ruby_text_spec(value@, table_views(string_tables@)) is None,
        },
{
    let content = match struct_get(value, FIELD_CONTENT_STRING_REFERENCE) {
        Some(c) => c,
        None => match struct_get(value, FIELD_FRAGMENT_TEXT) {
            Some(c) => c,
            None => {
                return None;
            },
        },
    };
    match as_string(content) {
        Some(s) => Some(s),
        None => resolve_string_reference(content, string_tables),
    }
}

// ---------------------------------------------------------------------------
// The first string of a content node, and its text leaves.
// ---------------------------------------------------------------------------

/// The first string a content tree shows, in reading order: a literal
/// string, or the value of a `$145` field (a string or a resolved reference).
pub open spec fn first_string(m: IonModel, tables: Map<u32, Seq<Seq<char>>>) -> Option<Seq<char>>
    decreases m,
{
    match m {
        IonModel::String(s) => Some(s),
        IonModel::Struct(fields) => first_string_fields(fields, tables),
        IonModel::List(items) => first_string_items(items, tables),
        IonModel::SExp(items) => first_string_items(items, tables),
        IonModel::Annotation { value, .. } => first_string(*value, tables),
        _ => None,
    }
}

pub open spec fn first_string_items(s: Seq<IonModel>, tables: Map<u32, Seq<Seq<char>>>) -> Option<Seq<char>>
    decreases s,
{
    if s.len() == 0 {
        None
    } else {
        match first_string_items(s.drop_last(), tables) {
            Some(x) => Some(x),
            None => first_string(s.last(), tables),
        }
    }
}

pub open spec fn first_string_fields(s: Seq<(u64, IonModel)>, tables: Map<u32, Seq<Seq<char>>>) -> Option<Seq<char>>
    decreases s,
{
    if s.len() == 0 {
        None
    } else {
        proof {
            assert(decreases_to!(s => s[s.len() - 1].1));
        }
        match first_string_fields(s.drop_last(), tables) {
            Some(x) => Some(x),
            None => {
                let (f, c) = s.last();
                let direct = if f == FIELD_CONTENT_STRING_REFERENCE {
                    match string_of(c) {
                        Some(x) => Some(x),
                        None => resolve_ref_spec(c, tables),
                    }
                } else {
                    None
                };
                match direct {
                    Some(x) => Some(x),
                    None => first_string(c, tables),
                }
            },
        }
    }
}

pub open spec fn opt_str_view(r: Option<&str>) -> Option<Seq<char>> {
    match r {
        Some(s) => Some(s@),
        None => None,
    }
}

/// The first string that a content tree shows.
pub fn first_content_string<'a>(value: &'a IonValue, tables: &'a BTreeMap<u32, Vec<String>>) -> (r: Option<&'a str>)
    ensures
        opt_str_view(r) == first_string(value@, table_views(tables@)),
    decreases value,
{
    match value {
        IonValue::String(text) => Some(text.as_str()),
        IonValue::Struct(fields) => first_string_in_fields(fields, tables),
        IonValue::List(items) => first_string_in_items(items, tables),
        IonValue::SExp(items) => first_string_in_items(items, tables),
        IonValue::Annotation { value: inner, .. } => first_content_string(inner, tables),
        _ => None,
    }
}

fn first_string_in_items<'a>(items: &'a Vec<IonValue>, tables: &'a BTreeMap<u32, Vec<String>>) -> (r: Option<&'a str>)
    ensures
        opt_str_view(r) == first_string_items(models(items@), table_views(tables@)),
    decreases items,
{
    let ghost tv = table_views(tables@);
    let ghost ms = models(items@);
    proof {
        lemma_models_index(items@);
    }
    let mut found: Option<&str> = None;
    let mut i: usize = 0;
    while i < items.len()
        invariant
            0 <= i <= items@.len(),
            tv == table_views(tables@),
            ms == models(items@),
            ms.len() == items@.len(),
            forall|k: int| 0 <= k < items@.len() ==> #[trigger] ms[k] == items@[k]@,
            opt_str_view(found) == first_string_items(ms.subrange(0, i as int), tv),
        decreases items@.len() - i,
    {
        assert(decreases_to!(items => items@[i as int]));
        assert(ms.subrange(0, i + 1).drop_last() =~= ms.subrange(0, i as int));
        if found.is_none() {
            found = first_content_string(&items[i], tables);
        }
        i = i + 1;
    }
    assert(ms.subrange(0, ms.len() as int) =~= ms);
    found
}

fn first_string_in_fields<'a>(fields: &'a Vec<(u64, IonValue)>, tables: &'a BTreeMap<u32, Vec<String>>) -> (r: Option<&'a str>)
    ensures
        opt_str_view(r) == first_string_fields(field_models(fields@), table_views(tables@)),
    decreases fields,
{
    let ghost tv = table_views(tables@);
    let ghost fs = field_models(fields@);
    proof {
        lemma_field_models_index(fields@);
    }
    let mut found: Option<&str> = None;
    let mut i: usize = 0;
    while i < fields.len()
        invariant
            0 <= i <= fields@.len(),
            tv == table_views(tables@),
            fs == field_models(fields@),
            fs.len() == fields@.len(),
            forall|k: int| 0 <= k < fields@.len() ==> #[trigger] fs[k] == (fields@[k].0, fields@[k].1@),
            opt_str_view(found) == first_string_fields(fs.subrange(0, i as int), tv),
        decreases fields@.len() - i,
    {
        assert(decreases_to!(fields => fields@[i as int].1));
        assert(fs.subrange(0, i + 1).drop_last() =~= fs.subrange(0, i as int));
        if found.is_none() {
            let child = &fields[i].1;
            if fields[i].0 == FIELD_CONTENT_STRING_REFERENCE {
                found = match as_string(child) {
                    Some(t) => Some(t),
                    None => resolve_string_reference(child, tables),
                };
            }
            if found.is_none() {
                found = first_content_string(child, tables);
            }
        }
        i = i + 1;
    }
    assert(fs.subrange(0, fs.len() as int) =~= fs);
    found
}

/// How many text leaves a content tree has: non-empty strings, `$145`
/// references, and non-empty `$584` strings.
pub open spec fn text_leaves(m: IonModel) -> nat
    decreases m,
{
    match m {
        IonModel::Struct(fields) => text_leaves_fields(fields),
        IonModel::List(items) => text_leaves_items(items),
        IonModel::SExp(items) => text_leaves_items(items),
        IonModel::Annotation { value, .. } => text_leaves(*value),
        IonModel::String(t) => if t.len() > 0 { 1 } else { 0 },
        _ => 0,
    }
}

pub open spec fn text_leaves_items(s: Seq<IonModel>) -> nat
    decreases s,
{
    if s.len() == 0 {
        0
    } else {
        text_leaves_items(s.drop_last()) + text_leaves(s.last())
    }
}

pub open spec fn text_leaves_fields(s: Seq<(u64, IonModel)>) -> nat
    decreases s,
{
    if s.len() == 0 {
        0
    } else {
        proof {
            assert(decreases_to!(s => s[s.len() - 1].1));
        }
        let (f, c) = s.last();
        text_leaves_fields(s.drop_last()) + if f == FIELD_CONTENT_STRING_REFERENCE {
            1
        } else if f == FIELD_FRAGMENT_TEXT {
            match string_of(c) {
                Some(t) => if t.len() > 0 { 1nat } else { 0nat },
                None => 0nat,
            }
        } else {
            text_leaves(c)
        }
    }
}

/// Counts the text leaves of a content tree (saturating).
pub fn count_content_text_leaves(value: &IonValue) -> (r: usize)
    ensures
        r == sat(text_leaves(value@)),
    decreases value,
{
    match value {
        IonValue::Struct(fields) => text_leaves_in_fields(fields),
        IonValue::List(items) => text_leaves_in_items(items),
        IonValue::SExp(items) => text_leaves_in_items(items),
        IonValue::Annotation { value: inner, .. } => count_content_text_leaves(inner),
        IonValue::String(text) => if text.as_str().is_empty() { 0 } else { 1 },
        _ => 0,
    }
}

fn text_leaves_in_items(items: &Vec<IonValue>) -> (r: usize)
    ensures
        r == sat(text_leaves_items(models(items@))),
    decreases items,
{
    let ghost ms = models(items@);
    proof {
        lemma_models_index(items@);
    }
    let mut total: usize = 0;
    let mut i: usize = 0;
    while i < items.len()
        invariant
            0 <= i <= items@.len(),
            ms == models(items@),
            ms.len() == items@.len(),
            forall|k: int| 0 <= k < items@.len() ==> #[trigger] ms[k] == items@[k]@,
            total == sat(text_leaves_items(ms.subrange(0, i as int))),
        decreases items@.len() - i,
    {
        assert(decreases_to!(items => items@[i as int]));
        let c = count_content_text_leaves(&items[i]);
        proof {
            assert(ms.subrange(0, i + 1).drop_last() =~= ms.subrange(0, i as int));
            lemma_sat_add(text_leaves_items(ms.subrange(0, i as int)), text_leaves(ms[i as int]));
        }
        total = total.saturating_add(c);
        i = i + 1;
    }
    assert(ms.subrange(0, ms.len() as int) =~= ms);
    total
}

fn text_leaves_in_fields(fields: &Vec<(u64, IonValue)>) -> (r: usize)
    ensures
        r == sat(text_leaves_fields(field_models(fields@))),
    decreases fields,
{
    let ghost fs = field_models(fields@);
    proof {
        lemma_field_models_index(fields@);
    }
    let mut total: usize = 0;
    let mut i: usize = 0;
    while i < fields.len()
        invariant
            0 <= i <= fields@.len(),
            fs == field_models(fields@),
            fs.len() == fields@.len(),
            forall|k: int| 0 <= k < fields@.len() ==> #[trigger] fs[k] == (fields@[k].0, fields@[k].1@),
            total == sat(text_leaves_fields(fs.subrange(0, i as int))),
        decreases fields@.len() - i,
    {
        assert(decreases_to!(fields => fields@[i as int].1));
        let f = fields[i].0;
        let child = &fields[i].1;
        let c: usize = if f == FIELD_CONTENT_STRING_REFERENCE {
            1
        } else if f == FIELD_FRAGMENT_TEXT {
            match as_string(child) {
                Some(t) => if t.is_empty() { 0 } else { 1 },
                None => 0,
            }
        } else {
            count_content_text_leaves(child)
        };
        proof {
            assert(fs.subrange(0, i + 1).drop_last() =~= fs.subrange(0, i as int));
            let (ff, cc) = fs[i as int];
            let leaf: nat = if ff == FIELD_CONTENT_STRING_REFERENCE {
                1
            } else if ff == FIELD_FRAGMENT_TEXT {
                match string_of(cc) {
                    Some(t) => if t.len() > 0 { 1nat } else { 0nat },
                    None => 0nat,
                }
            } else {
                text_leaves(cc)
            };
            assert(c == sat(leaf));
            lemma_sat_add(text_leaves_fields(fs.subrange(0, i as int)), leaf);
        }
        total = total.saturating_add(c);
        i = i + 1;
    }
    assert(fs.subrange(0, fs.len() as int) =~= fs);
    total
}

} // verus!
