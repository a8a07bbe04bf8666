//! Content-free observations of KFX resource identity: the records of the
//! resource audit report and the functions that compute them.
use vstd::prelude::*;
use std::collections::BTreeMap;
use vstd::std_specs::iter::IteratorSpec;
use crate::strset::{lex_lt, lex_less, lemma_lex_irreflexive, lemma_lex_transitive, lemma_lex_trichotomy};
use crate::ion::{IonModel, IonValue, models, field_models, lemma_models_index, lemma_field_models_index};
use crate::native::{ContainerOwnedView, NativeContainerOwned, container_views};
use crate::symbols::{ImportView, SymbolTableImport, import_views};
use crate::text::{owned, str_starts_with};
use crate::value::{struct_fields, struct_fields_of, unwrap_struct, struct_get, field_of, int_field, int_field_of, symbol_field_of, symbol_of, string_of, opt_model};
use crate::symbols::{count_some_max, import_symbol_id_shift};
use crate::native::{FragmentView, NativeFragment, NativeModel, NativeResource, ResourceView, fragment_views, resource_views};
use crate::nav::{fragment_fid, resolved_fragment_fid, to_u32};
use crate::decode::{container_symbol_name, opt_string_view, symbol_name_of};
use crate::content::{blob_count, ion_blob_count, sat};
use crate::digest::{sha256, sha256_digest};
use crate::media::{hex_lower, hex_spec, raster_dimensions, raster_spec};
use crate::value::{copy_value, string_field, symbol_field, string_field_of, as_int};
use crate::counts::{CountMap, bumped};
use crate::text::{trim, trim_chars, chars_of};
use crate::content::{FIELD_CONTENT_NODE_TYPE, FIELD_CONTENT_STRING_REFERENCE, FIELD_FRAGMENT_TEXT};
use crate::links::FIELD_TEXT_STYLE_EVENTS;
use crate::decode::{FIELD_TEXT_VALUES, CONTENT_FRAGMENT_TYPE};
use crate::nav::FIELD_NAV_TARGET_ID;

verus! {

/// Identifies a fragment in the audit: its container of origin, type, fid
/// and entity id.
#[derive(Clone, Debug)]
pub struct KfxAuditFragmentKey {
    pub container_origin: usize,
    pub fragment_type: u32,
    pub fid: Option<String>,
    pub native_entity_id: Option<u32>,
}

pub struct AuditKeyView {
    pub container_origin: usize,
    pub fragment_type: u32,
    pub fid: Option<Seq<char>>,
    pub native_entity_id: Option<u32>,
}

impl View for KfxAuditFragmentKey {
    type V = AuditKeyView;

    open spec fn view(&self) -> AuditKeyView {
        AuditKeyView {
            container_origin: self.container_origin,
            fragment_type: self.fragment_type,
            fid: match self.fid {
                Some(f) => Some(f@),
                None => None,
            },
            native_entity_id: self.native_entity_id,
        }
    }
}

/// `None` sorts first, then names in lexicographic order.
pub open spec fn opt_name_lt(a: Option<Seq<char>>, b: Option<Seq<char>>) -> bool {
    match (a, b) {
        (None, Some(_)) => true,
        (Some(x), Some(y)) => lex_lt(x, y),
        _ => false,
    }
}

pub open spec fn opt_id_lt(a: Option<u32>, b: Option<u32>) -> bool {
    match (a, b) {
        (None, Some(_)) => true,
        (Some(x), Some(y)) => x < y,
        _ => false,
    }
}

/// The audit order: by container of origin, type, fid, then entity id.
pub open spec fn key_lt(a: AuditKeyView, b: AuditKeyView) -> bool {
    a.container_origin < b.container_origin || (a.container_origin == b.container_origin && (
    a.fragment_type < b.fragment_type || (a.fragment_type == b.fragment_type && (opt_name_lt(a.fid, b.fid)
        || (a.fid == b.fid && opt_id_lt(a.native_entity_id, b.native_entity_id))))))
}

pub proof fn lemma_key_irreflexive(a: AuditKeyView)
    ensures
        !key_lt(a, a),
{
    match a.fid {
        Some(x) => lemma_lex_irreflexive(x),
        None => {},
    }
}

pub proof fn lemma_key_transitive(a: AuditKeyView, b: AuditKeyView, c: AuditKeyView)
    requires
        key_lt(a, b),
        key_lt(b, c),
    ensures
        key_lt(a, c),
{
    if a.container_origin == b.container_origin && b.container_origin == c.container_origin
        && a.fragment_type == b.fragment_type && b.fragment_type == c.fragment_type {
        match (a.fid, b.fid, c.fid) {
            (Some(x), Some(y), Some(z)) => {
                if lex_lt(x, y) && lex_lt(y, z) {
                    lemma_lex_transitive(x, y, z);
                }
                if lex_lt(x, y) && y == z {
                }
                if x == y && lex_lt(y, z) {
                }
            },
            _ => {},
        }
    }
}

pub proof fn lemma_key_total(a: AuditKeyView, b: AuditKeyView)
    ensures
        key_lt(a, b) || key_lt(b, a) || a == b,
{
    match (a.fid, b.fid) {
        (Some(x), Some(y)) => lemma_lex_trichotomy(x, y),
        _ => {},
    }
}

fn opt_name_less(a: &Option<String>, b: &Option<String>) -> (r: bool)
    ensures
        r == opt_name_lt(
            match a { Some(f) => Some(f@), None => None },
            match b { Some(f) => Some(f@), None => None },
        ),
{
    match (a, b) {
        (None, Some(_)) => true,
        (Some(x), Some(y)) => lex_less(x.as_str(), y.as_str()),
        _ => false,
    }
}

fn opt_name_eq(a: &Option<String>, b: &Option<String>) -> (r: bool)
    ensures
        r == ((match a { Some(f) => Some(f@), None => None }) == (match b { Some(f) => Some(f@), None => None })),
{
    match (a, b) {
        (None, None) => true,
        (Some(x), Some(y)) => crate::text::str_eq(x.as_str(), y.as_str()),
        _ => false,
    }
}

/// Whether `a` sorts before `b` in the audit order.
pub fn audit_key_less(a: &KfxAuditFragmentKey, b: &KfxAuditFragmentKey) -> (r: bool)
    ensures
        r == key_lt(a@, b@),
{
    if a.container_origin != b.container_origin {
        return a.container_origin < b.container_origin;
    }
    if a.fragment_type != b.fragment_type {
        return a.fragment_type < b.fragment_type;
    }
    if opt_name_less(&a.fid, &b.fid) {
        return true;
    }
    if !opt_name_eq(&a.fid, &b.fid) {
        return false;
    }
    match (a.native_entity_id, b.native_entity_id) {
        (None, Some(_)) => true,
        (Some(x), Some(y)) => x < y,
        _ => false,
    }
}

/// `order` lists the indices of `keys` once each, sorted by key, equal keys
/// in their original order.
pub open spec fn stable_order(keys: Seq<AuditKeyView>, order: Seq<usize>) -> bool {
    &&& order.len() == keys.len()
    &&& forall|a: int| 0 <= a < order.len() ==> (#[trigger] order[a]) < keys.len()
    &&& forall|a: int, b: int| 0 <= a < b < order.len() ==> (#[trigger] order[a]) != (#[trigger] order[b])
    &&& forall|a: int, b: int| 0 <= a < b < order.len() ==> !key_lt(#[trigger] keys[order[b] as int], #[trigger] keys[order[a] as int])
    &&& forall|a: int, b: int| 0 <= a < b < order.len() && #[trigger] keys[order[a] as int] == #[trigger] keys[order[b] as int] ==> order[a] < order[b]
}

pub open spec fn key_views(keys: Seq<KfxAuditFragmentKey>) -> Seq<AuditKeyView> {
    keys.map_values(|k: KfxAuditFragmentKey| k@)
}

/// The stable sorting order of a list of audit keys.
pub fn audit_order(keys: &Vec<KfxAuditFragmentKey>) -> (r: Vec<usize>)
    ensures
        stable_order(key_views(keys@), r@),
{
    let ghost kv = key_views(keys@);
    let mut order: Vec<usize> = Vec::new();
    let mut i: usize = 0;
    while i < keys.len()
        invariant
            0 <= i <= keys@.len(),
            kv == key_views(keys@),
            kv.len() == keys@.len(),
            order@.len() == i,
            forall|a: int| 0 <= a < order@.len() ==> (#[trigger] order@[a]) < i,
            forall|a: int, b: int| 0 <= a < b < order@.len() ==> (#[trigger] order@[a]) != (#[trigger] order@[b]),
            forall|a: int, b: int| 0 <= a < b < order@.len() ==> !key_lt(#[trigger] kv[order@[b] as int], #[trigger] kv[order@[a] as int]),
            forall|a: int, b: int| 0 <= a < b < order@.len() && #[trigger] kv[order@[a] as int] == #[trigger] kv[order@[b] as int] ==> order@[a] < order@[b],
        decreases keys@.len() - i,
    {
        let mut p: usize = 0;
        while p < order.len() && !audit_key_less(&keys[i], &keys[order[p]])
            invariant
                0 <= p <= order@.len(),
                i < keys@.len(),
                kv == key_views(keys@),
                kv.len() == keys@.len(),
                forall|a: int| 0 <= a < order@.len() ==> (#[trigger] order@[a]) < i,
                forall|a: int| 0 <= a < p ==> !key_lt(kv[i as int], #[trigger] kv[order@[a] as int]),
            decreases order@.len() - p,
        {
            assert(kv[order@[p as int] as int] == keys@[order@[p as int] as int]@);
            assert(kv[i as int] == keys@[i as int]@);
            p = p + 1;
        }
        proof {
            if p < order@.len() {
                assert(kv[order@[p as int] as int] == keys@[order@[p as int] as int]@);
                assert(kv[i as int] == keys@[i as int]@);
                assert(key_lt(kv[i as int], kv[order@[p as int] as int]));
            }
        }
        let ghost before = order@;
        order.insert(p, i);
        proof {
            let after = order@;
            assert(after =~= before.insert(p as int, i));
            assert forall|b: int| p < b < after.len() implies key_lt(kv[i as int], #[trigger] kv[after[b] as int]) by {
                assert(after[b] == before[b - 1]);
                if b - 1 > p {
                    assert(!key_lt(kv[before[b - 1] as int], kv[before[p as int] as int]));
                    lemma_key_total(kv[before[b - 1] as int], kv[before[p as int] as int]);
                    if kv[before[b - 1] as int] != kv[before[p as int] as int] {
                        lemma_key_transitive(kv[i as int], kv[before[p as int] as int], kv[before[b - 1] as int]);
                    }
                }
            }
            assert forall|a: int| 0 <= a < after.len() implies (#[trigger] after[a]) < i + 1 by {
                if a < p {
                    assert(after[a] == before[a]);
                } else if a > p {
                    assert(after[a] == before[a - 1]);
                }
            }
            assert forall|a: int, b: int| 0 <= a < b < after.len() implies (#[trigger] after[a]) != (#[trigger] after[b]) by {
                if a < p && b < p {
                    assert(after[a] == before[a] && after[b] == before[b]);
                } else if a < p && b == p {
                    assert(after[a] == before[a]);
                } else if a < p && b > p {
                    assert(after[a] == before[a] && after[b] == before[b - 1]);
                } else if a == p {
                    assert(after[b] == before[b - 1]);
                } else {
                    assert(after[a] == before[a - 1] && after[b] == before[b - 1]);
                }
            }
            assert forall|a: int, b: int| 0 <= a < b < after.len() implies !key_lt(#[trigger] kv[after[b] as int], #[trigger] kv[after[a] as int]) by {
                if a < p && b < p {
                    assert(after[a] == before[a] && after[b] == before[b]);
                } else if a < p && b == p {
                    assert(after[a] == before[a]);
                } else if a < p && b > p {
                    assert(after[a] == before[a] && after[b] == before[b - 1]);
                    assert(key_lt(kv[i as int], kv[after[b] as int]));
                    assert(!key_lt(kv[i as int], kv[after[a] as int]));
                    if key_lt(kv[after[b] as int], kv[after[a] as int]) {
                        lemma_key_total(kv[i as int], kv[after[a] as int]);
                        if kv[i as int] == kv[after[a] as int] {
                            lemma_key_irreflexive(kv[after[b] as int]);
                            lemma_key_transitive(kv[after[b] as int], kv[after[a] as int], kv[after[b] as int]);
                        } else {
                            lemma_key_transitive(kv[after[a] as int], kv[i as int], kv[after[b] as int]);
                            lemma_key_transitive(kv[after[b] as int], kv[after[a] as int], kv[after[b] as int]);
                            lemma_key_irreflexive(kv[after[b] as int]);
                        }
                    }
                } else if a == p {
                    assert(after[b] == before[b - 1]);
                    assert(key_lt(kv[i as int], kv[after[b] as int]));
                    if key_lt(kv[after[b] as int], kv[i as int]) {
                        lemma_key_transitive(kv[i as int], kv[after[b] as int], kv[i as int]);
                        lemma_key_irreflexive(kv[i as int]);
                    }
                } else {
                    assert(after[a] == before[a - 1] && after[b] == before[b - 1]);
                }
            }
            assert forall|a: int, b: int| 0 <= a < b < after.len() && #[trigger] kv[after[a] as int] == #[trigger] kv[after[b] as int] implies after[a] < after[b] by {
                if a < p && b < p {
                    assert(after[a] == before[a] && after[b] == before[b]);
                } else if a < p && b == p {
                    assert(after[a] == before[a]);
                } else if a < p && b > p {
                    assert(after[a] == before[a] && after[b] == before[b - 1]);
                    assert(key_lt(kv[i as int], kv[after[b] as int]));
                    assert(!key_lt(kv[i as int], kv[after[a] as int]));
                } else if a == p {
                    assert(after[b] == before[b - 1]);
                    assert(key_lt(kv[i as int], kv[after[b] as int]));
                    lemma_key_irreflexive(kv[i as int]);
                } else {
                    assert(after[a] == before[a - 1] && after[b] == before[b - 1]);
                }
            }
        }
        i = i + 1;
    }
    order
}

// ---------------------------------------------------------------------------
// Scalars.
// ---------------------------------------------------------------------------

/// A scalar Ion value, without text other than `resource/rsrc` names.
#[derive(Clone, Debug)]
pub struct KfxAuditScalar {
    pub kind: String,
    pub integer: Option<i64>,
    pub symbol_id: Option<u64>,
    pub string: Option<String>,
}

pub struct ScalarView {
    pub kind: Seq<char>,
    pub integer: Option<i64>,
    pub symbol_id: Option<u64>,
    pub string: Option<Seq<char>>,
}

impl View for KfxAuditScalar {
    type V = ScalarView;

    open spec fn view(&self) -> ScalarView {
        ScalarView {
            kind: self.kind@,
            integer: self.integer,
            symbol_id: self.symbol_id,
            string: match self.string {
                Some(s) => Some(s@),
                None => None,
            },
        }
    }
}

pub open spec fn starts_with(s: Seq<char>, p: Seq<char>) -> bool {
    p.len() <= s.len() && s.subrange(0, p.len() as int) == p
}

/// The audit form of an integer, symbol or string; a string is kept only
/// when it names a `resource/rsrc` resource.
pub open spec fn scalar_spec(m: IonModel) -> Option<ScalarView> {
    match m {
        IonModel::Int(i) => Some(ScalarView { kind: "int"@, integer: Some(i), symbol_id: None, string: None }),
        IonModel::Symbol(s) => Some(ScalarView { kind: "symbol"@, integer: None, symbol_id: Some(s), string: None }),
        IonModel::String(t) => Some(
            ScalarView {
                kind: "string"@,
                integer: None,
                symbol_id: None,
                string: if starts_with(t, "resource/rsrc"@) { Some(t) } else { None },
            },
        ),
        _ => None,
    }
}

pub open spec fn opt_scalar_view(r: Option<KfxAuditScalar>) -> Option<ScalarView> {
    match r {
        Some(x) => Some(x@),
        None => None,
    }
}

pub fn audit_scalar(value: &IonValue) -> (r: Option<KfxAuditScalar>)
    ensures
        opt_scalar_view(r) == scalar_spec(value@),
{
    match value {
        IonValue::Int(i) => Some(KfxAuditScalar { kind: owned("int"), integer: Some(*i), symbol_id: None, string: None }),
        IonValue::Symbol(s) => Some(KfxAuditScalar { kind: owned("symbol"), integer: None, symbol_id: Some(*s), string: None }),
        IonValue::String(t) => {
            let keep = str_starts_with(t.as_str(), "resource/rsrc");
            Some(
                KfxAuditScalar {
                    kind: owned("string"),
                    integer: None,
                    symbol_id: None,
                    string: if keep { Some(owned(t.as_str())) } else { None },
                },
            )
        },
        _ => None,
    }
}

// ---------------------------------------------------------------------------
// Field ids.
// ---------------------------------------------------------------------------

/// The field ids of a struct (through annotations); none for other values.
pub open spec fn field_id_set(m: IonModel) -> Set<u64> {
    match struct_fields_of(m) {
        Some(fields) => Set::new(|id: u64| exists|i: int| 0 <= i < fields.len() && (#[trigger] fields[i]).0 == id),
        None => Set::empty(),
    }
}

pub open spec fn strictly_increasing(s: Seq<u64>) -> bool {
    forall|i: int, j: int| 0 <= i < j < s.len() ==> #[trigger] s[i] < #[trigger] s[j]
}

/// The field ids of a struct, ascending and without repeats.
pub fn sorted_field_ids(value: &IonValue) -> (r: Vec<u64>)
    ensures
        strictly_increasing(r@),
        r@.to_set() == field_id_set(value@),
{
    let mut ids: Vec<u64> = Vec::new();
    let fields = match struct_fields(value) {
        Some(f) => f,
        None => {
            assert(ids@.to_set() =~= Set::<u64>::empty());
            return ids;
        },
    };
    let ghost fs = field_models(fields@);
    proof {
        lemma_field_models_index(fields@);
    }
    let mut i: usize = 0;
    while i < fields.len()
        invariant
            0 <= i <= fields@.len(),
            fs == field_models(fields@),
            fs.len() == fields@.len(),
            forall|k: int| 0 <= k < fields@.len() ==> #[trigger] fs[k] == (fields@[k].0, fields@[k].1@),
            strictly_increasing(ids@),
            forall|id: u64| ids@.contains(id) <==> exists|k: int| 0 <= k < i && (#[trigger] fs[k]).0 == id,
        decreases fields@.len() - i,
    {
        let id = fields[i].0;
        let mut p: usize = 0;
        while p < ids.len() && ids[p] < id
            invariant
                0 <= p <= ids@.len(),
                forall|k: int| 0 <= k < p ==> #[trigger] ids@[k] < id,
            decreases ids@.len() - p,
        {
            p = p + 1;
        }
        let ghost before = ids@;
        if p < ids.len() && ids[p] == id {
            assert forall|x: u64| ids@.contains(x) <==> before.contains(x) || x == id by {
                if x == id {
                    assert(before[p as int] == x);
                }
            }
        } else {
            ids.insert(p, id);
            proof {
                assert(ids@ =~= before.insert(p as int, id));
                assert forall|a: int, b: int| 0 <= a < b < ids@.len() implies #[trigger] ids@[a] < #[trigger] ids@[b] by {
                    if a < p && b < p {
                    } else if a < p && b == p {
                    } else if a < p {
                        assert(ids@[b] == before[b - 1]);
                    } else if a == p {
                        assert(ids@[b] == before[b - 1]);
                        if b - 1 > p {
                            assert(before[p as int] < before[b - 1]);
                        }
                    } else {
                        assert(ids@[a] == before[a - 1] && ids@[b] == before[b - 1]);
                    }
                }
                assert forall|x: u64| ids@.contains(x) <==> before.contains(x) || x == id by {
                    if ids@.contains(x) {
                        let w = choose|w: int| 0 <= w < ids@.len() && ids@[w] == x;
                        if w < p {
                            assert(before[w] == x);
                        } else if w > p {
                            assert(before[w - 1] == x);
                        }
                    }
                    if before.contains(x) {
                        let w = choose|w: int| 0 <= w < before.len() && before[w] == x;
                        if w < p {
                            assert(ids@[w] == x);
                        } else {
                            assert(ids@[w + 1] == x);
                        }
                    }
                    if x == id {
                        assert(ids@[p as int] == x);
                    }
                }
            }
        }
        proof {
            assert(forall|x: u64| ids@.contains(x) <==> before.contains(x) || x == id);
            assert forall|x: u64| ids@.contains(x) <==> exists|k: int| 0 <= k < i + 1 && (#[trigger] fs[k]).0 == x by {
                if ids@.contains(x) {
                    if x == id {
                        assert(fs[i as int].0 == x);
                    } else {
                        assert(before.contains(x));
                        let k = choose|k: int| 0 <= k < i && (#[trigger] fs[k]).0 == x;
                        assert(0 <= k < i + 1 && fs[k].0 == x);
                    }
                }
                if exists|k: int| 0 <= k < i + 1 && (#[trigger] fs[k]).0 == x {
                    let k = choose|k: int| 0 <= k < i + 1 && (#[trigger] fs[k]).0 == x;
                    if k < i {
                        assert(before.contains(x));
                    } else {
                        assert(x == id);
                    }
                }
            }
        }
        i = i + 1;
    }
    proof {
        assert forall|x: u64| ids@.to_set().contains(x) <==> field_id_set(value@).contains(x) by {
            assert(ids@.to_set().contains(x) == ids@.contains(x));
        }
        assert(ids@.to_set() =~= field_id_set(value@));
    }
    ids
}

// ---------------------------------------------------------------------------
// Containers.
// ---------------------------------------------------------------------------

/// One container of the file-set, by origin.
#[derive(Clone, Debug)]
pub struct KfxAuditContainer {
    pub origin_index: usize,
    pub input_index: usize,
    pub byte_offset: usize,
    pub entity_count: usize,
    pub symbol_count: usize,
    pub symbol_import_count: usize,
    pub duplicate_symbol_ids: usize,
}

/// The keys of a symbol table, each once.
fn table_keys(names: &BTreeMap<u64, String>) -> (r: Vec<u64>)
    ensures
        r@.no_duplicates(),
        r@.to_set() == names@.dom(),
{
    broadcast use vstd::std_specs::btree::group_btree_axioms;
    let ghost all = vstd::std_specs::btree::spec_btree_map_iter(names).remaining();
    let mut keys: Vec<u64> = Vec::new();
    for kv in it: names.iter()
        invariant
            it.seq() == all,
            keys@ == it.seq().take(it.index() as int).map_values(|p: (&u64, &String)| *p.0),
    {
        let ghost before = keys@;
        keys.push(*kv.0);
        proof {
            assert(it.seq().take(it.index() + 1).map_values(|p: (&u64, &String)| *p.0) =~= before.push(*kv.0));
        }
    }
    proof {
        assert(all.take(all.len() as int) =~= all);
        assert forall|i: int, j: int| 0 <= i < keys@.len() && 0 <= j < keys@.len() && i != j implies keys@[i] != keys@[j] by {
            assert(keys@[i] == *all[i].0);
            assert(keys@[j] == *all[j].0);
            assert(names@.contains_key(*all[i].0) && names@[*all[i].0] == *all[i].1);
            assert(names@.contains_key(*all[j].0) && names@[*all[j].0] == *all[j].1);
            if keys@[i] == keys@[j] {
                assert(all[i] == all[j]);
            }
        }
        assert forall|k: u64| keys@.to_set().contains(k) <==> names@.dom().contains(k) by {
            if keys@.contains(k) {
                let w = choose|w: int| 0 <= w < keys@.len() && keys@[w] == k;
                assert(keys@[w] == *all[w].0);
                assert(names@.contains_key(*all[w].0));
            }
            if names@.contains_key(k) {
                assert(all.contains((&k, &names@[k])));
                let w = choose|w: int| 0 <= w < all.len() && all[w] == (&k, &names@[k]);
                assert(keys@[w] == k);
            }
        }
        assert(keys@.to_set() =~= names@.dom());
    }
    keys
}

pub proof fn lemma_filter_card<A>(s: Seq<A>, pred: spec_fn(A) -> bool)
    requires
        s.no_duplicates(),
    ensures
        s.filter(pred).len() == s.to_set().filter(pred).len(),
    decreases s.len(),
{
    broadcast use vstd::seq_lib::group_seq_properties, vstd::set::group_set_axioms, vstd::seq_lib::seq_to_set_is_finite;
    if s.len() == 0 {
        assert(s.filter(pred) =~= Seq::<A>::empty());
        assert(s.to_set().filter(pred) =~= Set::<A>::empty());
    } else {
        let t = s.drop_last();
        let x = s.last();
        assert(s =~= t.push(x));
        assert(t.no_duplicates());
        lemma_filter_card(t, pred);
        t.lemma_filter_push(x, pred);
        assert(!t.contains(x));
        assert(s.to_set() =~= t.to_set().insert(x));
        if pred(x) {
            assert(s.to_set().filter(pred) =~= t.to_set().filter(pred).insert(x));
        } else {
            assert(s.to_set().filter(pred) =~= t.to_set().filter(pred));
        }
    }
}

pub struct AuditContainerView {
    pub origin_index: usize,
    pub input_index: usize,
    pub byte_offset: usize,
    pub entity_count: usize,
    pub symbol_count: usize,
    pub symbol_import_count: usize,
    pub duplicate_symbol_ids: usize,
}

impl View for KfxAuditContainer {
    type V = AuditContainerView;

    open spec fn view(&self) -> AuditContainerView {
        AuditContainerView {
            origin_index: self.origin_index,
            input_index: self.input_index,
            byte_offset: self.byte_offset,
            entity_count: self.entity_count,
            symbol_count: self.symbol_count,
            symbol_import_count: self.symbol_import_count,
            duplicate_symbol_ids: self.duplicate_symbol_ids,
        }
    }
}

/// Some container before `i` declares symbol `k`.
pub open spec fn declared_earlier(cs: Seq<ContainerOwnedView>, i: int, k: u64) -> bool {
    exists|j: int| 0 <= j < i && #[trigger] cs[j].symbols.names.contains_key(k)
}

/// The audit record of container `i`: its symbol count, the imports that
/// declare a `max_id`, and how many of its symbol ids an earlier container
/// also declares.
pub open spec fn audit_container_spec(cs: Seq<ContainerOwnedView>, i: int) -> AuditContainerView {
    AuditContainerView {
        origin_index: i as usize,
        input_index: cs[i].input_index,
        byte_offset: cs[i].byte_offset,
        entity_count: cs[i].entity_count,
        symbol_count: cs[i].symbols.names.dom().len() as usize,
        symbol_import_count: count_some_max(cs[i].symbols.imports) as usize,
        duplicate_symbol_ids: cs[i].symbols.names.dom().filter(|k: u64| declared_earlier(cs, i, k)).len() as usize,
    }
}

fn declared_before(containers: &Vec<NativeContainerOwned>, i: usize, k: u64) -> (r: bool)
    requires
        i <= containers@.len(),
    ensures
        r == declared_earlier(container_views(containers@), i as int, k),
{
    let ghost cv = container_views(containers@);
    let mut j: usize = 0;
    while j < i
        invariant
            0 <= j <= i <= containers@.len(),
            cv == container_views(containers@),
            forall|a: int| 0 <= a < j ==> !(#[trigger] cv[a].symbols.names.contains_key(k)),
        decreases i - j,
    {
        assert(cv[j as int] == containers@[j as int]@);
        if containers[j].symbols.names.contains_key(&k) {
            assert(cv[j as int].symbols.names.contains_key(k));
            return true;
        }
        j = j + 1;
    }
    false
}

fn imports_with_max(imports: &Vec<SymbolTableImport>) -> (r: usize)
    ensures
        r == count_some_max(import_views(imports@)),
{
    let ghost iv = import_views(imports@);
    let mut n: usize = 0;
    let mut i: usize = 0;
    while i < imports.len()
        invariant
            0 <= i <= imports@.len(),
            iv == import_views(imports@),
            n == count_some_max(iv.subrange(0, i as int)),
            n <= i,
        decreases imports@.len() - i,
    {
        proof {
            assert(iv.subrange(0, i + 1).subrange(0, i as int) =~= iv.subrange(0, i as int));
            assert(iv[i as int] == imports@[i as int]@);
        }
        if imports[i].max_id.is_some() {
            n = n + 1;
        }
        i = i + 1;
    }
    assert(iv.subrange(0, iv.len() as int) =~= iv);
    n
}

/// The audit records of the containers, by origin.
pub fn audit_containers(containers: &Vec<NativeContainerOwned>) -> (r: Vec<KfxAuditContainer>)
    ensures
        r@.len() == containers@.len(),
        forall|i: int| 0 <= i < r@.len() ==> (#[trigger] r@[i])@ == audit_container_spec(container_views(containers@), i),
{
    let ghost cv = container_views(containers@);
    let mut out: Vec<KfxAuditContainer> = Vec::new();
    let mut i: usize = 0;
    while i < containers.len()
        invariant
            0 <= i <= containers@.len(),
            cv == container_views(containers@),
            out@.len() == i,
            forall|a: int| 0 <= a < i ==> (#[trigger] out@[a])@ == audit_container_spec(cv, a),
        decreases containers@.len() - i,
    {
        let c = &containers[i];
        assert(cv[i as int] == c@);
        let keys = table_keys(&c.symbols.names);
        let ghost pred = |k: u64| declared_earlier(cv, i as int, k);
        let mut dup: usize = 0;
        let mut k: usize = 0;
        while k < keys.len()
            invariant
                0 <= k <= keys@.len(),
                i < containers@.len(),
                cv == container_views(containers@),
                pred == (|k: u64| declared_earlier(cv, i as int, k)),
                dup == keys@.take(k as int).filter(pred).len(),
                dup <= k,
            decreases keys@.len() - k,
        {
            proof {
                assert(keys@.take(k + 1) =~= keys@.take(k as int).push(keys@[k as int]));
                keys@.take(k as int).lemma_filter_push(keys@[k as int], pred);
            }
            if declared_before(containers, i, keys[k]) {
                dup = dup + 1;
            }
            k = k + 1;
        }
        proof {
            assert(keys@.take(keys@.len() as int) =~= keys@);
            lemma_filter_card(keys@, pred);
            assert(c.symbols.names@.dom() == c@.symbols.names.dom());
        }
        let symbol_count = c.symbols.names.len();
        out.push(
            KfxAuditContainer {
                origin_index: i,
                input_index: c.input_index,
                byte_offset: c.byte_offset,
                entity_count: c.entity_count,
                symbol_count,
                symbol_import_count: imports_with_max(&c.symbols.imports),
                duplicate_symbol_ids: dup,
            },
        );
        proof {
            assert(c.symbols.names@.dom() =~= cv[i as int].symbols.names.dom());
        }
        i = i + 1;
    }
    out
}

// ---------------------------------------------------------------------------
// Composite fragments and raw media.
// ---------------------------------------------------------------------------

/// The audit key of a fragment.
pub open spec fn fragment_key_spec(cs: Seq<ContainerOwnedView>, f: FragmentView) -> AuditKeyView {
    AuditKeyView {
        container_origin: f.container_index,
        fragment_type: f.fragment_type,
        fid: fragment_fid(cs, f),
        native_entity_id: Some(f.entity_id),
    }
}

pub(crate) fn fragment_key(containers: &Vec<NativeContainerOwned>, fragment: &NativeFragment) -> (r: KfxAuditFragmentKey)
    ensures
        r@ == fragment_key_spec(container_views(containers@), fragment@),
{
    KfxAuditFragmentKey {
        container_origin: fragment.container_index,
        fragment_type: fragment.fragment_type,
        fid: resolved_fragment_fid(containers, fragment),
        native_entity_id: Some(fragment.entity_id),
    }
}

pub open spec fn fragment_keys(cs: Seq<ContainerOwnedView>, fs: Seq<FragmentView>) -> Seq<AuditKeyView> {
    fs.map_values(|f: FragmentView| fragment_key_spec(cs, f))
}

pub open spec fn raw_keys(cs: Seq<ContainerOwnedView>, rs: Seq<ResourceView>) -> Seq<AuditKeyView> {
    rs.map_values(|x: ResourceView| raw_key_spec(cs, x))
}

/// A fragment that embeds blobs; its structure is not classified.
#[derive(Debug)]
pub struct KfxAuditCompositeFragment {
    pub fragment_key: KfxAuditFragmentKey,
    pub classification: String,
    pub field_ids: Vec<u64>,
    pub embedded_blob_count: usize,
}

/// `r` is the composite record of fragment `f`.
pub open spec fn composite_ok(r: KfxAuditCompositeFragment, cs: Seq<ContainerOwnedView>, f: FragmentView) -> bool {
    &&& r.fragment_key@ == fragment_key_spec(cs, f)
    &&& r.classification@ == "Unknown"@
    &&& strictly_increasing(r.field_ids@)
    &&& r.field_ids@.to_set() == field_id_set(f.value)
    &&& r.embedded_blob_count == sat(blob_count(f.value))
}

/// The fragments that embed at least one blob, in order.
pub open spec fn blob_fragments(frags: Seq<FragmentView>) -> Seq<FragmentView>
    decreases frags.len(),
{
    if frags.len() == 0 {
        Seq::empty()
    } else {
        let prev = blob_fragments(frags.drop_last());
        if blob_count(frags.last().value) > 0 {
            prev.push(frags.last())
        } else {
            prev
        }
    }
}

fn composite_record(containers: &Vec<NativeContainerOwned>, fragment: &NativeFragment) -> (r: KfxAuditCompositeFragment)
    ensures
        composite_ok(r, container_views(containers@), fragment@),
{
    KfxAuditCompositeFragment {
        fragment_key: fragment_key(containers, fragment),
        classification: owned("Unknown"),
        field_ids: sorted_field_ids(&fragment.value),
        embedded_blob_count: ion_blob_count(&fragment.value),
    }
}

/// The composite-fragment records, in the audit order.
/// `r` holds the records of the fragments that embed blobs, in audit
/// order.
pub open spec fn composite_list_ok(r: Seq<KfxAuditCompositeFragment>, cs: Seq<ContainerOwnedView>, fs: Seq<FragmentView>) -> bool {
    let cand = blob_fragments(fs);
    exists|ord: Seq<usize>| {
        &&& #[trigger] stable_order(fragment_keys(cs, cand), ord)
        &&& r.len() == cand.len()
        &&& forall|a: int| 0 <= a < r.len() ==> composite_ok(#[trigger] r[a], cs, cand[ord[a] as int])
    }
}

pub fn audit_composite_fragments(
    containers: &Vec<NativeContainerOwned>,
    fragments: &Vec<NativeFragment>,
) -> (r: Vec<KfxAuditCompositeFragment>)
    ensures
        composite_list_ok(r@, container_views(containers@), fragment_views(fragments@)),
{
    let ghost cs = container_views(containers@);
    let ghost fv = fragment_views(fragments@);
    let mut picked: Vec<usize> = Vec::new();
    let mut keys: Vec<KfxAuditFragmentKey> = Vec::new();
    let mut i: usize = 0;
    while i < fragments.len()
        invariant
            0 <= i <= fragments@.len(),
            cs == container_views(containers@),
            fv == fragment_views(fragments@),
            picked@.len() == keys@.len(),
            picked@.len() == blob_fragments(fv.take(i as int)).len(),
            forall|a: int| 0 <= a < picked@.len() ==> (#[trigger] picked@[a]) < fragments@.len()
                && fv[picked@[a] as int] == blob_fragments(fv.take(i as int))[a],
            key_views(keys@) == fragment_keys(cs, blob_fragments(fv.take(i as int))),
        decreases fragments@.len() - i,
    {
        proof {
            assert(fv.take(i + 1).drop_last() =~= fv.take(i as int));
            assert(fv[i as int] == fragments@[i as int]@);
        }
        if ion_blob_count(&fragments[i].value) > 0 {
            let k = fragment_key(containers, &fragments[i]);
            let ghost before = keys@;
            picked.push(i);
            keys.push(k);
            proof {
                let prev = blob_fragments(fv.take(i as int));
                assert(blob_fragments(fv.take(i + 1)) == prev.push(fv[i as int]));
                assert(fragment_keys(cs, prev.push(fv[i as int])) =~= fragment_keys(cs, prev).push(fragment_key_spec(cs, fv[i as int])));
                assert(key_views(keys@) =~= key_views(before).push(keys@.last()@));
                assert(key_views(keys@) =~= fragment_keys(cs, prev.push(fv[i as int])));
            }
        }
        i = i + 1;
    }
    assert(fv.take(i as int) =~= fv);
    let ghost cand = blob_fragments(fv);
    let order = audit_order(&keys);
    let mut out: Vec<KfxAuditCompositeFragment> = Vec::new();
    let mut a: usize = 0;
    while a < order.len()
        invariant
            0 <= a <= order@.len(),
            cs == container_views(containers@),
            fv == fragment_views(fragments@),
            cand == blob_fragments(fv),
            picked@.len() == cand.len(),
            stable_order(key_views(keys@), order@),
            forall|x: int| 0 <= x < picked@.len() ==> (#[trigger] picked@[x]) < fragments@.len()
                && fv[picked@[x] as int] == cand[x],
            key_views(keys@) == fragment_keys(cs, cand),
            out@.len() == a,
            forall|x: int| 0 <= x < a ==> composite_ok(#[trigger] out@[x], cs, cand[order@[x] as int]),
        decreases order@.len() - a,
    {
        let idx = order[a];
        assert(idx < keys@.len());
        let fi = picked[idx];
        assert(fv[fi as int] == fragments@[fi as int]@);
        out.push(composite_record(containers, &fragments[fi]));
        a = a + 1;
    }
    assert(stable_order(fragment_keys(cs, cand), order@));
    out
}

/// A raw media entity (`$417`).
#[derive(Debug)]
pub struct KfxAuditRawMedia {
    pub fragment_key: KfxAuditFragmentKey,
    pub media_type: String,
    pub byte_length: usize,
    pub sha256_audit_only: String,
    pub dimensions: Option<(u32, u32)>,
    pub symbol_name: Option<String>,
    pub symbol_name_legacy_unadjusted_audit_only: Option<String>,
    pub entity_header_field_ids: Vec<u64>,
    pub inner_fid_value: Option<KfxAuditScalar>,
}

pub const RAW_MEDIA_FRAGMENT_TYPE: u32 = 417;

/// The name an entity id had before system symbols were counted per
/// import: the id shifted down by nine for each import with a `max_id`.
pub open spec fn legacy_symbol_name(cs: Seq<ContainerOwnedView>, ci: usize, fid: u32) -> Option<Seq<char>> {
    if ci < cs.len() {
        let shift = 9 * count_some_max(cs[ci as int].symbols.imports);
        if shift <= u64::MAX && fid >= shift {
            container_symbol_name(cs, ci, (fid - shift) as u64)
        } else {
            None
        }
    } else {
        None
    }
}

pub open spec fn opt_ids(info: Option<IonModel>) -> Set<u64> {
    match info {
        Some(v) => field_id_set(v),
        None => Set::empty(),
    }
}

pub open spec fn inner_fid_spec(info: Option<IonModel>) -> Option<ScalarView> {
    match info {
        Some(v) => match field_of(v, 4) {
            Some(x) => scalar_spec(x),
            None => None,
        },
        None => None,
    }
}

/// `r` is the audit record of raw resource `res` with entity id `fid`.
pub open spec fn raw_media_ok(r: KfxAuditRawMedia, cs: Seq<ContainerOwnedView>, res: ResourceView, fid: u32) -> bool {
    let name = container_symbol_name(cs, res.container_index, fid as u64);
    &&& r.fragment_key@ == (AuditKeyView {
        container_origin: res.container_index,
        fragment_type: res.fragment_type,
        fid: name,
        native_entity_id: Some(fid),
    })
    &&& r.media_type@ == res.media_type
    &&& r.byte_length == res.bytes.len()
    &&& r.sha256_audit_only@ == hex_spec(sha256(res.bytes))
    &&& r.dimensions == raster_spec(res.bytes)
    &&& opt_string_view(r.symbol_name) == name
    &&& opt_string_view(r.symbol_name_legacy_unadjusted_audit_only) == legacy_symbol_name(cs, res.container_index, fid)
    &&& strictly_increasing(r.entity_header_field_ids@)
    &&& r.entity_header_field_ids@.to_set() == opt_ids(res.entity_info)
    &&& opt_scalar_view(r.inner_fid_value) == inner_fid_spec(res.entity_info)
}

/// The raw media resources: type 417 with an entity id, in order.
pub open spec fn raw_resources(rs: Seq<ResourceView>) -> Seq<ResourceView>
    decreases rs.len(),
{
    if rs.len() == 0 {
        Seq::empty()
    } else {
        let prev = raw_resources(rs.drop_last());
        if rs.last().fragment_type == RAW_MEDIA_FRAGMENT_TYPE && rs.last().entity_id is Some {
            prev.push(rs.last())
        } else {
            prev
        }
    }
}

pub open spec fn raw_key_spec(cs: Seq<ContainerOwnedView>, res: ResourceView) -> AuditKeyView {
    AuditKeyView {
        container_origin: res.container_index,
        fragment_type: res.fragment_type,
        fid: container_symbol_name(cs, res.container_index, res.entity_id->0 as u64),
        native_entity_id: res.entity_id,
    }
}

fn legacy_name_of(containers: &Vec<NativeContainerOwned>, ci: usize, fid: u32) -> (r: Option<String>)
    ensures
        opt_string_view(r) == legacy_symbol_name(container_views(containers@), ci, fid),
{
    if ci >= containers.len() {
        return None;
    }
    let ghost cv = container_views(containers@);
    assert(cv[ci as int] == containers@[ci as int]@);
    let shift = match import_symbol_id_shift(containers[ci].symbols.imports.as_slice()) {
        Some(s) => s,
        None => {
            return None;
        },
    };
    if (fid as u64) < shift {
        return None;
    }
    symbol_name_of(containers, ci, fid as u64 - shift)
}

fn raw_media_record(containers: &Vec<NativeContainerOwned>, res: &NativeResource, fid: u32) -> (r: KfxAuditRawMedia)
    ensures
        raw_media_ok(r, container_views(containers@), res@, fid),
{
    let name = symbol_name_of(containers, res.container_index, fid as u64);
    let name2 = symbol_name_of(containers, res.container_index, fid as u64);
    let digest = sha256_digest(res.bytes.as_slice());
    let ids = match &res.entity_info {
        Some(info) => sorted_field_ids(info),
        None => {
            let v: Vec<u64> = Vec::new();
            assert(v@.to_set() =~= Set::<u64>::empty());
            v
        },
    };
    let inner = match &res.entity_info {
        Some(info) => match struct_get(info, 4) {
            Some(x) => audit_scalar(x),
            None => None,
        },
        None => None,
    };
    KfxAuditRawMedia {
        fragment_key: KfxAuditFragmentKey {
            container_origin: res.container_index,
            fragment_type: res.fragment_type,
            fid: name,
            native_entity_id: Some(fid),
        },
        media_type: owned(res.media_type.as_str()),
        byte_length: res.bytes.len(),
        sha256_audit_only: hex_lower(digest.as_slice()),
        dimensions: raster_dimensions(res.bytes.as_slice()),
        symbol_name: name2,
        symbol_name_legacy_unadjusted_audit_only: legacy_name_of(containers, res.container_index, fid),
        entity_header_field_ids: ids,
        inner_fid_value: inner,
    }
}

/// The raw media records, in the audit order.
/// `r` holds the audit records of the raw media, in audit order.
pub open spec fn raw_list_ok(r: Seq<KfxAuditRawMedia>, cs: Seq<ContainerOwnedView>, rs: Seq<ResourceView>) -> bool {
    let cand = raw_resources(rs);
    exists|ord: Seq<usize>| {
        &&& #[trigger] stable_order(raw_keys(cs, cand), ord)
        &&& r.len() == cand.len()
        &&& forall|a: int| 0 <= a < r.len() ==> raw_media_ok(#[trigger] r[a], cs, cand[ord[a] as int], cand[ord[a] as int].entity_id->0)
    }
}

pub fn audit_raw_media(
    containers: &Vec<NativeContainerOwned>,
    resources: &Vec<NativeResource>,
) -> (r: Vec<KfxAuditRawMedia>)
    ensures
        raw_list_ok(r@, container_views(containers@), resource_views(resources@)),
{
    let ghost cs = container_views(containers@);
    let ghost rv = resource_views(resources@);
    let mut picked: Vec<usize> = Vec::new();
    let mut keys: Vec<KfxAuditFragmentKey> = Vec::new();
    let mut i: usize = 0;
    while i < resources.len()
        invariant
            0 <= i <= resources@.len(),
            cs == container_views(containers@),
            rv == resource_views(resources@),
            picked@.len() == keys@.len(),
            picked@.len() == raw_resources(rv.take(i as int)).len(),
            forall|a: int| 0 <= a < picked@.len() ==> (#[trigger] picked@[a]) < resources@.len()
                && rv[picked@[a] as int] == raw_resources(rv.take(i as int))[a],
            forall|a: int| 0 <= a < picked@.len() ==> (#[trigger] raw_resources(rv.take(i as int))[a]).fragment_type == RAW_MEDIA_FRAGMENT_TYPE
                && raw_resources(rv.take(i as int))[a].entity_id is Some,
            key_views(keys@) == raw_keys(cs, raw_resources(rv.take(i as int))),
        decreases resources@.len() - i,
    {
        proof {
            assert(rv.take(i + 1).drop_last() =~= rv.take(i as int));
            assert(rv[i as int] == resources@[i as int]@);
        }
        let res = &resources[i];
        if res.fragment_type == RAW_MEDIA_FRAGMENT_TYPE {
            match res.entity_id {
                Some(fid) => {
                    let k = KfxAuditFragmentKey {
                        container_origin: res.container_index,
                        fragment_type: res.fragment_type,
                        fid: symbol_name_of(containers, res.container_index, fid as u64),
                        native_entity_id: Some(fid),
                    };
                    let ghost before = keys@;
                    picked.push(i);
                    keys.push(k);
                    proof {
                        let prev = raw_resources(rv.take(i as int));
                        assert(raw_keys(cs, prev.push(rv[i as int])) =~= raw_keys(cs, prev).push(raw_key_spec(cs, rv[i as int])));
                        assert(key_views(keys@) =~= key_views(before).push(keys@.last()@));
                        assert(raw_resources(rv.take(i + 1)) == prev.push(rv[i as int]));
                        assert(key_views(keys@) =~= raw_keys(cs, prev.push(rv[i as int])));
                    }
                },
                None => {},
            }
        }
        i = i + 1;
    }
    assert(rv.take(i as int) =~= rv);
    let ghost cand = raw_resources(rv);
    let order = audit_order(&keys);
    let mut out: Vec<KfxAuditRawMedia> = Vec::new();
    let mut a: usize = 0;
    while a < order.len()
        invariant
            0 <= a <= order@.len(),
            cs == container_views(containers@),
            rv == resource_views(resources@),
            cand == raw_resources(rv),
            picked@.len() == cand.len(),
            stable_order(key_views(keys@), order@),
            forall|x: int| 0 <= x < picked@.len() ==> (#[trigger] picked@[x]) < resources@.len()
                && rv[picked@[x] as int] == cand[x],
            forall|x: int| 0 <= x < picked@.len() ==> (#[trigger] cand[x]).entity_id is Some,
            key_views(keys@) == raw_keys(cs, cand),
            out@.len() == a,
            forall|x: int| 0 <= x < a ==> raw_media_ok(#[trigger] out@[x], cs, cand[order@[x] as int], cand[order@[x] as int].entity_id->0),
        decreases order@.len() - a,
    {
        let idx = order[a];
        assert(idx < keys@.len());
        let ri = picked[idx];
        let res = &resources[ri];
        assert(rv[ri as int] == res@);
        let fid = match res.entity_id {
            Some(f) => f,
            None => {
                assert(false);
                0
            },
        };
        out.push(raw_media_record(containers, res, fid));
        a = a + 1;
    }
    assert(stable_order(raw_keys(cs, cand), order@));
    out
}

// ---------------------------------------------------------------------------
// Tile layouts.
// ---------------------------------------------------------------------------

/// The tile grid of an external resource.
#[derive(Debug)]
pub struct KfxAuditTileLayout {
    pub row_count: usize,
    pub max_column_count: usize,
    pub overlapped_tiles_field_present: bool,
    pub locations: Vec<String>,
}

pub open spec fn names_of(container: Option<ContainerOwnedView>) -> Option<Map<u64, Seq<char>>> {
    match container {
        Some(c) => Some(c.symbols.names),
        None => None,
    }
}

/// The `resource/` locations a tile grid names, in order: strings, or
/// symbols of the container.
pub open spec fn tiles_walk(out: Seq<Seq<char>>, m: IonModel, names: Option<Map<u64, Seq<char>>>) -> Seq<Seq<char>>
    decreases m,
{
    match m {
        IonModel::String(loc) => if starts_with(loc, "resource/"@) { out.push(loc) } else { out },
        IonModel::Symbol(sym) => match names {
            Some(n) => if n.contains_key(sym) && starts_with(n[sym], "resource/"@) { out.push(n[sym]) } else { out },
            None => out,
        },
        IonModel::Struct(fields) => tiles_walk_fields(out, fields, names),
        IonModel::List(items) => tiles_walk_items(out, items, names),
        IonModel::SExp(items) => tiles_walk_items(out, items, names),
        IonModel::Annotation { value, .. } => tiles_walk(out, *value, names),
        _ => out,
    }
}

pub open spec fn tiles_walk_items(out: Seq<Seq<char>>, s: Seq<IonModel>, names: Option<Map<u64, Seq<char>>>) -> Seq<Seq<char>>
    decreases s,
{
    if s.len() == 0 {
        out
    } else {
        tiles_walk(tiles_walk_items(out, s.drop_last(), names), s.last(), names)
    }
}

pub open spec fn tiles_walk_fields(out: Seq<Seq<char>>, s: Seq<(u64, IonModel)>, names: Option<Map<u64, Seq<char>>>) -> Seq<Seq<char>>
    decreases s,
{
    if s.len() == 0 {
        out
    } else {
        proof {
            assert(decreases_to!(s => s[s.len() - 1].1));
        }
        tiles_walk(tiles_walk_fields(out, s.drop_last(), names), s.last().1, names)
    }
}

pub open spec fn opt_container_view(c: Option<&NativeContainerOwned>) -> Option<ContainerOwnedView> {
    match c {
        Some(x) => Some(x@),
        None => None,
    }
}

/// Collects the `resource/` locations of a tile grid value.
pub fn collect_tile_locations(value: &IonValue, container: Option<&NativeContainerOwned>, output: &mut Vec<String>)
    ensures
        crate::native::strs(final(output)@) == tiles_walk(crate::native::strs(old(output)@), value@, names_of(opt_container_view(container))),
    decreases value,
{
    let ghost before = output@;
    match value {
        IonValue::String(loc) => {
            if str_starts_with(loc.as_str(), "resource/") {
                output.push(owned(loc.as_str()));
                assert(crate::native::strs(output@) =~= crate::native::strs(before).push(loc@));
            }
        },
        IonValue::Symbol(sym) => match container {
            Some(c) => match c.symbols.names.get(sym) {
                Some(loc) => {
                    if str_starts_with(loc.as_str(), "resource/") {
                        output.push(owned(loc.as_str()));
                        assert(crate::native::strs(output@) =~= crate::native::strs(before).push(loc@));
                    }
                },
                None => {},
            },
            None => {},
        },
        IonValue::Struct(fields) => {
            let ghost fs = field_models(fields@);
            proof {
                lemma_field_models_index(fields@);
            }
            tiles_in_fields(fields, container, output);
        },
        IonValue::List(items) => tiles_in_items(items, container, output),
        IonValue::SExp(items) => tiles_in_items(items, container, output),
        IonValue::Annotation { value: inner, .. } => collect_tile_locations(inner, container, output),
        _ => {},
    }
}

fn tiles_in_items(items: &Vec<IonValue>, container: Option<&NativeContainerOwned>, output: &mut Vec<String>)
    ensures
        crate::native::strs(final(output)@) == tiles_walk_items(crate::native::strs(old(output)@), models(items@), names_of(opt_container_view(container))),
    decreases items,
{
    let ghost ms = models(items@);
    let ghost o0 = crate::native::strs(output@);
    proof {
        lemma_models_index(items@);
    }
    let mut i: usize = 0;
    while i < items.len()
        invariant
            0 <= i <= items@.len(),
            ms == models(items@),
            ms.len() == items@.len(),
            forall|k: int| 0 <= k < items@.len() ==> #[trigger] ms[k] == items@[k]@,
            crate::native::strs(output@) == tiles_walk_items(o0, ms.subrange(0, i as int), names_of(opt_container_view(container))),
        decreases items@.len() - i,
    {
        assert(decreases_to!(items => items@[i as int]));
        assert(ms.subrange(0, i + 1).drop_last() =~= ms.subrange(0, i as int));
        collect_tile_locations(&items[i], container, output);
        i = i + 1;
    }
    assert(ms.subrange(0, ms.len() as int) =~= ms);
}

fn tiles_in_fields(fields: &Vec<(u64, IonValue)>, container: Option<&NativeContainerOwned>, output: &mut Vec<String>)
    ensures
        crate::native::strs(final(output)@) == tiles_walk_fields(crate::native::strs(old(output)@), field_models(fields@), names_of(opt_container_view(container))),
    decreases fields,
{
    let ghost fs = field_models(fields@);
    let ghost o0 = crate::native::strs(output@);
    proof {
        lemma_field_models_index(fields@);
    }
    let mut i: usize = 0;
    while i < fields.len()
        invariant
            0 <= i <= fields@.len(),
            fs == field_models(fields@),
            fs.len() == fields@.len(),
            forall|k: int| 0 <= k < fields@.len() ==> #[trigger] fs[k] == (fields@[k].0, fields@[k].1@),
            crate::native::strs(output@) == tiles_walk_fields(o0, fs.subrange(0, i as int), names_of(opt_container_view(container))),
        decreases fields@.len() - i,
    {
        assert(decreases_to!(fields => fields@[i as int].1));
        assert(fs.subrange(0, i + 1).drop_last() =~= fs.subrange(0, i as int));
        collect_tile_locations(&fields[i].1, container, output);
        i = i + 1;
    }
    assert(fs.subrange(0, fs.len() as int) =~= fs);
}

pub struct TileView {
    pub row_count: usize,
    pub max_column_count: usize,
    pub overlapped_tiles_field_present: bool,
    pub locations: Seq<Seq<char>>,
}

pub open spec fn column_count(row: IonModel) -> nat {
    match row {
        IonModel::List(cs) => cs.len(),
        _ => 0,
    }
}

pub open spec fn max_columns(rows: Seq<IonModel>) -> nat
    decreases rows.len(),
{
    if rows.len() == 0 {
        0
    } else {
        let m = max_columns(rows.drop_last());
        let c = column_count(rows.last());
        if c > m { c } else { m }
    }
}

/// The layout of a tile grid: rows, widest row, the `resource/` locations
/// it names, and whether overlapped tiles are declared.
pub open spec fn tile_layout_spec(value: Option<IonModel>, overlapped: bool, names: Option<Map<u64, Seq<char>>>) -> Option<TileView> {
    match value {
        None => None,
        Some(IonModel::List(rows)) => Some(
            TileView {
                row_count: rows.len() as usize,
                max_column_count: max_columns(rows) as usize,
                overlapped_tiles_field_present: overlapped,
                locations: tiles_walk_items(Seq::empty(), rows, names),
            },
        ),
        Some(_) => Some(TileView { row_count: 0, max_column_count: 0, overlapped_tiles_field_present: overlapped, locations: Seq::empty() }),
    }
}

pub open spec fn tile_view(t: Option<KfxAuditTileLayout>) -> Option<TileView> {
    match t {
        Some(x) => Some(TileView {
            row_count: x.row_count,
            max_column_count: x.max_column_count,
            overlapped_tiles_field_present: x.overlapped_tiles_field_present,
            locations: crate::native::strs(x.locations@),
        }),
        None => None,
    }
}

pub fn audit_tile_layout(
    value: Option<&IonValue>,
    overlapped_tiles_field_present: bool,
    container: Option<&NativeContainerOwned>,
) -> (r: Option<KfxAuditTileLayout>)
    ensures
        tile_view(r) == tile_layout_spec(opt_model(value), overlapped_tiles_field_present, names_of(opt_container_view(container))),
{
    let value = match value {
        Some(v) => v,
        None => {
            return None;
        },
    };
    let rows = match value {
        IonValue::List(rows) => rows,
        _ => {
            let locations: Vec<String> = Vec::new();
            assert(crate::native::strs(locations@) =~= Seq::<Seq<char>>::empty());
            return Some(KfxAuditTileLayout { row_count: 0, max_column_count: 0, overlapped_tiles_field_present, locations });
        },
    };
    let ghost ms = models(rows@);
    proof {
        lemma_models_index(rows@);
    }
    let mut max_column_count: usize = 0;
    let mut i: usize = 0;
    while i < rows.len()
        invariant
            0 <= i <= rows@.len(),
            ms == models(rows@),
            ms.len() == rows@.len(),
            forall|k: int| 0 <= k < rows@.len() ==> #[trigger] ms[k] == rows@[k]@,
            max_column_count == max_columns(ms.subrange(0, i as int)),
        decreases rows@.len() - i,
    {
        assert(ms.subrange(0, i + 1).drop_last() =~= ms.subrange(0, i as int));
        let c: usize = match &rows[i] {
            IonValue::List(columns) => {
                proof {
                    lemma_models_index(columns@);
                }
                columns.len()
            },
            _ => 0,
        };
        if c > max_column_count {
            max_column_count = c;
        }
        i = i + 1;
    }
    assert(ms.subrange(0, ms.len() as int) =~= ms);
    let mut locations: Vec<String> = Vec::new();
    assert(crate::native::strs(locations@) =~= Seq::<Seq<char>>::empty());
    tiles_in_items(rows, container, &mut locations);
    Some(KfxAuditTileLayout { row_count: rows.len(), max_column_count, overlapped_tiles_field_present, locations })
}

// ---------------------------------------------------------------------------
// Strings, symbols and locations of external resource records.
// ---------------------------------------------------------------------------

/// A string, or a symbol named in the container's table.
pub open spec fn string_or_symbol_spec(value: Option<IonModel>, names: Option<Map<u64, Seq<char>>>) -> Option<Seq<char>> {
    match value {
        Some(IonModel::String(s)) => Some(s),
        Some(IonModel::Symbol(sym)) => match names {
            Some(n) => if n.contains_key(sym) { Some(n[sym]) } else { None },
            None => None,
        },
        _ => None,
    }
}

pub fn audit_string_or_symbol(value: Option<&IonValue>, container: Option<&NativeContainerOwned>) -> (r: Option<String>)
    ensures
        opt_string_view(r) == string_or_symbol_spec(opt_model(value), names_of(opt_container_view(container))),
{
    match value {
        Some(IonValue::String(s)) => Some(owned(s.as_str())),
        Some(IonValue::Symbol(sym)) => match container {
            Some(c) => match c.symbols.names.get(sym) {
                Some(n) => Some(owned(n.as_str())),
                None => None,
            },
            None => None,
        },
        _ => None,
    }
}

pub const FIELD_RESOURCE_METADATA_PATH: u64 = 165;

/// Where an external resource record says its bytes are: its `$165`
/// string, or the name of its `$165` symbol; with the symbol id and how the
/// location was found.
pub open spec fn resource_location_spec(cs: Seq<ContainerOwnedView>, f: FragmentView) -> (Option<Seq<char>>, Option<u64>, Seq<char>) {
    match field_of(f.value, FIELD_RESOURCE_METADATA_PATH) {
        Some(IonModel::String(s)) => (Some(s), None, "ion_string"@),
        Some(IonModel::Symbol(sym)) => {
            let name = container_symbol_name(cs, f.container_index, sym);
            (name, Some(sym), if name is Some { "container_symbol_table"@ } else { "unresolved_symbol"@ })
        },
        Some(_) => (None, None, "unsupported_value_type"@),
        None => (None, None, "missing_field"@),
    }
}

pub fn resource_location(containers: &Vec<NativeContainerOwned>, fragment: &NativeFragment) -> (r: (Option<String>, Option<u64>, String))
    ensures
        (opt_string_view(r.0), r.1, r.2@) == resource_location_spec(container_views(containers@), fragment@),
{
    match struct_get(&fragment.value, FIELD_RESOURCE_METADATA_PATH) {
        Some(IonValue::String(s)) => (Some(owned(s.as_str())), None, owned("ion_string")),
        Some(IonValue::Symbol(sym)) => {
            let name = symbol_name_of(containers, fragment.container_index, *sym);
            let source = if name.is_some() { owned("container_symbol_table") } else { owned("unresolved_symbol") };
            (name, Some(*sym), source)
        },
        Some(_) => (None, None, owned("unsupported_value_type")),
        None => (None, None, owned("missing_field")),
    }
}

/// A declared dimension that fits `u32`.
pub fn audit_dimension(value: &IonValue, field: u64) -> (r: Option<u32>)
    ensures
        r == to_u32(int_field(value@, field)),
{
    match int_field_of(value, field) {
        Some(i) => if i >= 0 && i <= 0xffff_ffff {
            Some(i as u32)
        } else {
            None
        },
        None => None,
    }
}

/// A symbol-valued field of an external resource record.
#[derive(Debug)]
pub struct KfxAuditSymbolReference {
    pub field_id: u64,
    pub symbol_id: u64,
    pub resolved_name: Option<String>,
}

pub struct SymbolReferenceView {
    pub field_id: u64,
    pub symbol_id: u64,
    pub resolved_name: Option<Seq<char>>,
}

impl View for KfxAuditSymbolReference {
    type V = SymbolReferenceView;

    open spec fn view(&self) -> SymbolReferenceView {
        SymbolReferenceView { field_id: self.field_id, symbol_id: self.symbol_id, resolved_name: opt_string_view(self.resolved_name) }
    }
}

/// The symbol references among fields 161, 162, 165 and 175, in that order.
pub open spec fn linked_symbols_spec(cs: Seq<ContainerOwnedView>, f: FragmentView) -> Seq<SymbolReferenceView> {
    let step = |acc: Seq<SymbolReferenceView>, field: u64| match field_of(f.value, field) {
        Some(IonModel::Symbol(sym)) => acc.push(SymbolReferenceView { field_id: field, symbol_id: sym, resolved_name: container_symbol_name(cs, f.container_index, sym) }),
        _ => acc,
    };
    step(step(step(step(Seq::empty(), 161), 162), 165), 175)
}

fn push_symbol_reference(
    containers: &Vec<NativeContainerOwned>,
    fragment: &NativeFragment,
    field: u64,
    out: &mut Vec<KfxAuditSymbolReference>,
)
    ensures
        final(out)@.map_values(|x: KfxAuditSymbolReference| x@) == match field_of(fragment@.value, field) {
            Some(IonModel::Symbol(sym)) => old(out)@.map_values(|x: KfxAuditSymbolReference| x@).push(SymbolReferenceView { field_id: field, symbol_id: sym, resolved_name: container_symbol_name(container_views(containers@), fragment@.container_index, sym) }),
            _ => old(out)@.map_values(|x: KfxAuditSymbolReference| x@),
        },
{
    match struct_get(&fragment.value, field) {
        Some(IonValue::Symbol(sym)) => {
            let ghost before = out@;
            out.push(KfxAuditSymbolReference {
                field_id: field,
                symbol_id: *sym,
                resolved_name: symbol_name_of(containers, fragment.container_index, *sym),
            });
            assert(out@.map_values(|x: KfxAuditSymbolReference| x@) =~= before.map_values(|x: KfxAuditSymbolReference| x@).push(out@.last()@));
        },
        _ => {},
    }
}

pub fn linked_symbols(containers: &Vec<NativeContainerOwned>, fragment: &NativeFragment) -> (r: Vec<KfxAuditSymbolReference>)
    ensures
        r@.map_values(|x: KfxAuditSymbolReference| x@) == linked_symbols_spec(container_views(containers@), fragment@),
{
    let mut out: Vec<KfxAuditSymbolReference> = Vec::new();
    assert(out@.map_values(|x: KfxAuditSymbolReference| x@) =~= Seq::<SymbolReferenceView>::empty());
    push_symbol_reference(containers, fragment, 161, &mut out);
    push_symbol_reference(containers, fragment, 162, &mut out);
    push_symbol_reference(containers, fragment, 165, &mut out);
    push_symbol_reference(containers, fragment, 175, &mut out);
    out
}

// ---------------------------------------------------------------------------
// References and placements of resources in content.
// ---------------------------------------------------------------------------

pub const FIELD_CONTENT_RESOURCE_SYMBOL: u64 = 157;

/// Counts, by name, the `$157` resource symbols of a content tree; a symbol
/// is shifted down by `shift` before it is looked up in `names`.
pub open spec fn refs_walk(c: Map<Seq<char>, usize>, m: IonModel, names: Map<u64, Seq<char>>, shift: u64) -> Map<Seq<char>, usize>
    decreases m,
{
    match m {
        IonModel::Struct(fields) => refs_walk_fields(c, fields, names, shift),
        IonModel::List(items) => refs_walk_items(c, items, names, shift),
        IonModel::SExp(items) => refs_walk_items(c, items, names, shift),
        IonModel::Annotation { value, .. } => refs_walk(c, *value, names, shift),
        _ => c,
    }
}

pub open spec fn refs_walk_items(c: Map<Seq<char>, usize>, s: Seq<IonModel>, names: Map<u64, Seq<char>>, shift: u64) -> Map<Seq<char>, usize>
    decreases s,
{
    if s.len() == 0 {
        c
    } else {
        refs_walk(refs_walk_items(c, s.drop_last(), names, shift), s.last(), names, shift)
    }
}

/// A `$157` symbol field counts its name.
pub open spec fn ref_here(c: Map<Seq<char>, usize>, field: u64, child: IonModel, names: Map<u64, Seq<char>>, shift: u64) -> Map<Seq<char>, usize> {
    if field == FIELD_CONTENT_RESOURCE_SYMBOL {
        match child {
            IonModel::Symbol(sym) => if sym >= shift && names.contains_key((sym - shift) as u64) {
                bumped(c, names[(sym - shift) as u64])
            } else {
                c
            },
            _ => c,
        }
    } else {
        c
    }
}

pub open spec fn refs_walk_fields(c: Map<Seq<char>, usize>, s: Seq<(u64, IonModel)>, names: Map<u64, Seq<char>>, shift: u64) -> Map<Seq<char>, usize>
    decreases s,
{
    if s.len() == 0 {
        c
    } else {
        proof {
            assert(decreases_to!(s => s[s.len() - 1].1));
        }
        let prev = refs_walk_fields(c, s.drop_last(), names, shift);
        refs_walk(ref_here(prev, s.last().0, s.last().1, names, shift), s.last().1, names, shift)
    }
}

pub open spec fn name_map(names: &BTreeMap<u64, String>) -> Map<u64, Seq<char>> {
    names@.map_values(|s: String| s@)
}

pub fn count_reference_symbols(value: &IonValue, symbols: &BTreeMap<u64, String>, content_import_shift: u64, counts: &mut CountMap)
    requires
        old(counts).wf(),
    ensures
        final(counts).wf(),
        final(counts).counts() == refs_walk(old(counts).counts(), value@, name_map(symbols), content_import_shift),
    decreases value,
{
    match value {
        IonValue::Struct(fields) => refs_in_fields(fields, symbols, content_import_shift, counts),
        IonValue::List(items) => refs_in_items(items, symbols, content_import_shift, counts),
        IonValue::SExp(items) => refs_in_items(items, symbols, content_import_shift, counts),
        IonValue::Annotation { value: inner, .. } => count_reference_symbols(inner, symbols, content_import_shift, counts),
        _ => {},
    }
}

fn refs_in_items(items: &Vec<IonValue>, symbols: &BTreeMap<u64, String>, shift: u64, counts: &mut CountMap)
    requires
        old(counts).wf(),
    ensures
        final(counts).wf(),
        final(counts).counts() == refs_walk_items(old(counts).counts(), models(items@), name_map(symbols), shift),
    decreases items,
{
    let ghost ms = models(items@);
    let ghost c0 = counts.counts();
    proof {
        lemma_models_index(items@);
    }
    let mut i: usize = 0;
    while i < items.len()
        invariant
            0 <= i <= items@.len(),
            counts.wf(),
            ms == models(items@),
            ms.len() == items@.len(),
            forall|k: int| 0 <= k < items@.len() ==> #[trigger] ms[k] == items@[k]@,
            counts.counts() == refs_walk_items(c0, ms.subrange(0, i as int), name_map(symbols), shift),
        decreases items@.len() - i,
    {
        assert(decreases_to!(items => items@[i as int]));
        assert(ms.subrange(0, i + 1).drop_last() =~= ms.subrange(0, i as int));
        count_reference_symbols(&items[i], symbols, shift, counts);
        i = i + 1;
    }
    assert(ms.subrange(0, ms.len() as int) =~= ms);
}

fn refs_in_fields(fields: &Vec<(u64, IonValue)>, symbols: &BTreeMap<u64, String>, shift: u64, counts: &mut CountMap)
    requires
        old(counts).wf(),
    ensures
        final(counts).wf(),
        final(counts).counts() == refs_walk_fields(old(counts).counts(), field_models(fields@), name_map(symbols), shift),
    decreases fields,
{
    let ghost fs = field_models(fields@);
    let ghost c0 = counts.counts();
    proof {
        lemma_field_models_index(fields@);
    }
    let mut i: usize = 0;
    while i < fields.len()
        invariant
            0 <= i <= fields@.len(),
            counts.wf(),
            fs == field_models(fields@),
            fs.len() == fields@.len(),
            forall|k: int| 0 <= k < fields@.len() ==> #[trigger] fs[k] == (fields@[k].0, fields@[k].1@),
            counts.counts() == refs_walk_fields(c0, fs.subrange(0, i as int), name_map(symbols), shift),
        decreases fields@.len() - i,
    {
        assert(decreases_to!(fields => fields@[i as int].1));
        assert(fs.subrange(0, i + 1).drop_last() =~= fs.subrange(0, i as int));
        if fields[i].0 == FIELD_CONTENT_RESOURCE_SYMBOL {
            match &fields[i].1 {
                IonValue::Symbol(sym) => {
                    if *sym >= shift {
                        match symbols.get(&(*sym - shift)) {
                            Some(fid) => {
                                counts.increment(fid.as_str());
                            },
                            None => {},
                        }
                    }
                },
                _ => {},
            }
        }
        count_reference_symbols(&fields[i].1, symbols, shift, counts);
        i = i + 1;
    }
    assert(fs.subrange(0, fs.len() as int) =~= fs);
}

/// How content fragments of the file-set reference each resource name.
/// With `content_symbol_ids`, a symbol is first shifted down by the
/// container's import shift (nine per import with a `max_id`).
pub open spec fn references_spec(cs: Seq<ContainerOwnedView>, fs: Seq<FragmentView>, content_symbol_ids: bool) -> Map<Seq<char>, usize>
    decreases fs.len(),
{
    if fs.len() == 0 {
        Map::empty()
    } else {
        let prev = references_spec(cs, fs.drop_last(), content_symbol_ids);
        let f = fs.last();
        if f.fragment_type != CONTENT_FRAGMENT_TYPE || f.container_index >= cs.len() {
            prev
        } else {
            let c = cs[f.container_index as int];
            let n = 9 * count_some_max(c.symbols.imports);
            let shift: u64 = if content_symbol_ids && n <= u64::MAX { n as u64 } else { 0 };
            refs_walk(prev, f.value, c.symbols.names, shift)
        }
    }
}

pub fn count_resource_references_with_symbol_policy(model: &NativeModel, content_symbol_ids: bool) -> (r: CountMap)
    ensures
        r.wf(),
        r.counts() == references_spec(model@.containers, model@.fragments, content_symbol_ids),
{
    let ghost cs = model@.containers;
    let ghost fv = model@.fragments;
    let mut counts = CountMap::new();
    let mut i: usize = 0;
    while i < model.fragments.len()
        invariant
            0 <= i <= model.fragments@.len(),
            cs == model@.containers,
            fv == model@.fragments,
            counts.wf(),
            counts.counts() == references_spec(cs, fv.take(i as int), content_symbol_ids),
        decreases model.fragments@.len() - i,
    {
        proof {
            assert(fv.take(i + 1).drop_last() =~= fv.take(i as int));
            assert(fv[i as int] == model.fragments@[i as int]@);
        }
        let f = &model.fragments[i];
        if f.fragment_type == CONTENT_FRAGMENT_TYPE && f.container_index < model.containers.len() {
            let c = &model.containers[f.container_index];
            assert(cs[f.container_index as int] == c@);
            let shift: u64 = if content_symbol_ids {
                match import_symbol_id_shift(c.symbols.imports.as_slice()) {
                    Some(s) => s,
                    None => 0,
                }
            } else {
                0
            };
            proof {
                assert(name_map(&c.symbols.names) =~= cs[f.container_index as int].symbols.names);
            }
            count_reference_symbols(&f.value, &c.symbols.names, shift, &mut counts);
        }
        i = i + 1;
    }
    assert(fv.take(i as int) =~= fv);
    counts
}

pub fn count_resource_references(model: &NativeModel) -> (r: CountMap)
    ensures
        r.wf(),
        r.counts() == references_spec(model@.containers, model@.fragments, true),
{
    count_resource_references_with_symbol_policy(model, true)
}

pub fn count_resource_references_standard_ion(model: &NativeModel) -> (r: CountMap)
    ensures
        r.wf(),
        r.counts() == references_spec(model@.containers, model@.fragments, false),
{
    count_resource_references_with_symbol_policy(model, false)
}

/// The import of the `YJ_symbols` table, version 10, with a `max_id`.
pub open spec fn yj_import(i: ImportView) -> bool {
    i.name == Some("YJ_symbols"@) && i.version == Some(10u32) && i.max_id is Some
}

pub open spec fn yj_count(imports: Seq<ImportView>) -> nat
    decreases imports.len(),
{
    if imports.len() == 0 {
        0
    } else {
        yj_count(imports.drop_last()) + if yj_import(imports.last()) { 1nat } else { 0nat }
    }
}

/// The sum, over the imports, of `max_id` (less the nine system symbols
/// when `standard`); `None` when an import has no `max_id`, one is below
/// nine, or the sum leaves `u64`.
pub open spec fn preceding_symbols(imports: Seq<ImportView>, standard: bool) -> Option<u64>
    decreases imports.len(),
{
    if imports.len() == 0 {
        Some(0)
    } else {
        match preceding_symbols(imports.drop_last(), standard) {
            None => None,
            Some(total) => match imports.last().max_id {
                None => None,
                Some(m) => {
                    let part: int = if standard { m - 9 } else { m as int };
                    if part < 0 || total + part > u64::MAX {
                        None
                    } else {
                        Some((total + part) as u64)
                    }
                },
            },
        }
    }
}

/// The position of the first `YJ_symbols` v10 import (the length when
/// there is none).
pub open spec fn first_yj(imports: Seq<ImportView>) -> int
    decreases imports.len(),
{
    if imports.len() == 0 {
        0
    } else {
        let before = first_yj(imports.drop_last());
        if before < imports.len() - 1 {
            before
        } else if yj_import(imports.last()) {
            imports.len() - 1
        } else {
            imports.len() as int
        }
    }
}

/// The record symbol given the symbols of the imports before the table:
/// the system symbols, one, those symbols and offset 261.
pub open spec fn placement_after(preceding: Option<u64>) -> Option<u64> {
    match preceding {
        None => None,
        Some(p) => if 10 + p + 261 > u64::MAX {
            None
        } else {
            Some((10 + p + 261) as u64)
        },
    }
}

/// The symbol id of the whitespace resource record (the image placement
/// record): after the system symbols, the imports before the only
/// `YJ_symbols` v10 import, and offset 261 into that table.
pub open spec fn whitespace_symbol_spec(imports: Seq<ImportView>, standard: bool) -> Option<u64> {
    if yj_count(imports) != 1 {
        None
    } else {
        placement_after(preceding_symbols(imports.take(first_yj(imports)), standard))
    }
}

proof fn lemma_first_yj(imports: Seq<ImportView>)
    ensures
        0 <= first_yj(imports) <= imports.len(),
        first_yj(imports) < imports.len() ==> yj_import(imports[first_yj(imports)]),
        first_yj(imports) == imports.len() <==> yj_count(imports) == 0,
    decreases imports.len(),
{
    if imports.len() > 0 {
        lemma_first_yj(imports.drop_last());
    }
}

fn is_yj_import(i: &SymbolTableImport) -> (r: bool)
    ensures
        r == yj_import(i@),
{
    let named = match &i.name {
        Some(n) => crate::text::str_eq(n.as_str(), "YJ_symbols"),
        None => false,
    };
    let versioned = match i.version {
        Some(v) => v == 10,
        None => false,
    };
    named && versioned && i.max_id.is_some()
}

/// The sum of the `max_id`s of the first `first` imports, as
/// `preceding_symbols` states it.
fn preceding_import_symbols(imports: &Vec<SymbolTableImport>, first: usize, standard: bool) -> (r: Option<u64>)
    requires
        first <= imports@.len(),
    ensures
        r == preceding_symbols(import_views(imports@).take(first as int), standard),
{
    let ghost iv = import_views(imports@);
    let mut total: u64 = 0;
    let mut k: usize = 0;
    while k < first
        invariant
            0 <= k <= first <= imports@.len(),
            iv == import_views(imports@),
            preceding_symbols(iv.take(k as int), standard) == Some(total),
        decreases first - k,
    {
        proof {
            assert(iv.take(k + 1).drop_last() =~= iv.take(k as int));
            assert(iv[k as int] == imports@[k as int]@);
            assert(iv.take(first as int).take(k + 1) =~= iv.take(k + 1));
        }
        let m: u64 = match imports[k].max_id {
            Some(m) => m as u64,
            None => {
                proof { lemma_preceding_none(iv.take(first as int), k as int + 1, standard); }
                return None;
            },
        };
        let part: u64 = if standard {
            if m < 9 {
                proof { lemma_preceding_none(iv.take(first as int), k as int + 1, standard); }
                return None;
            }
            m - 9
        } else {
            m
        };
        if total > u64::MAX - part {
            proof { lemma_preceding_none(iv.take(first as int), k as int + 1, standard); }
            return None;
        }
        total = total + part;
        k = k + 1;
    }
    Some(total)
}

/// The placement record symbol, counting each earlier import's `max_id`
/// less the system symbols (`standard`) or whole.
pub fn whitespace_resource_record_symbol(imports: &Vec<SymbolTableImport>, standard: bool) -> (r: Option<u64>)
    ensures
        r == whitespace_symbol_spec(import_views(imports@), standard),
{
    let ghost iv = import_views(imports@);
    let mut count: usize = 0;
    let mut first: usize = 0;
    let mut i: usize = 0;
    while i < imports.len()
        invariant
            0 <= i <= imports@.len(),
            iv == import_views(imports@),
            count == yj_count(iv.take(i as int)),
            count <= i,
            count >= 1 ==> first == first_yj(iv.take(i as int)),
            count == 0 ==> first_yj(iv.take(i as int)) == i,
        decreases imports@.len() - i,
    {
        proof {
            assert(iv.take(i + 1).drop_last() =~= iv.take(i as int));
            assert(iv[i as int] == imports@[i as int]@);
            lemma_first_yj(iv.take(i as int));
        }
        if is_yj_import(&imports[i]) {
            if count == 0 {
                first = i;
            }
            count = count + 1;
        }
        i = i + 1;
    }
    assert(iv.take(i as int) =~= iv);
    if count != 1 {
        return None;
    }
    let preceding = preceding_import_symbols(imports, first, standard);
    match preceding {
        None => None,
        Some(total) => {
            if total > u64::MAX - 271 {
                None
            } else {
                Some(10 + total + 261)
            }
        },
    }
}

/// The placement record symbol under standard Ion numbering: each earlier
/// import contributes its symbols beyond the system table.
pub fn observed_whitespace_resource_record_symbol_for_imports(imports: &Vec<SymbolTableImport>) -> (r: Option<u64>)
    ensures
        r == whitespace_symbol_spec(import_views(imports@), true),
{
    whitespace_resource_record_symbol(imports, true)
}

/// The placement record symbol under the numbering content records use: each
/// earlier import contributes its whole `max_id`.
pub fn observed_whitespace_resource_record_symbol_for_imports_content(imports: &Vec<SymbolTableImport>) -> (r: Option<u64>)
    ensures
        r == whitespace_symbol_spec(import_views(imports@), false),
{
    whitespace_resource_record_symbol(imports, false)
}

proof fn lemma_preceding_none(imports: Seq<ImportView>, k: int, standard: bool)
    requires
        0 <= k <= imports.len(),
        preceding_symbols(imports.take(k), standard) is None,
    ensures
        preceding_symbols(imports, standard) is None,
    decreases imports.len() - k,
{
    if k < imports.len() {
        assert(imports.take(k + 1).drop_last() =~= imports.take(k));
        lemma_preceding_none(imports, k + 1, standard);
    } else {
        assert(imports.take(k) =~= imports);
    }
}

/// An image placeholder of a content tree: a struct whose node type is
/// the placement record symbol, with a `$157` resource symbol, an integer
/// `$155` id, a `$584` text that is blank once trimmed, and none of the
/// `$145`, `$142` and `$146` fields.
pub open spec fn is_placeholder(m: IonModel, image_record_symbol: u64) -> bool {
    &&& symbol_field(m, FIELD_CONTENT_NODE_TYPE) == Some(image_record_symbol)
    &&& symbol_field(m, FIELD_CONTENT_RESOURCE_SYMBOL) is Some
    &&& int_field(m, FIELD_NAV_TARGET_ID) is Some
    &&& string_field(m, FIELD_FRAGMENT_TEXT) matches Some(t) && trim(t).len() == 0
    &&& field_of(m, FIELD_CONTENT_STRING_REFERENCE) is None
    &&& field_of(m, FIELD_TEXT_STYLE_EVENTS) is None
    &&& field_of(m, FIELD_TEXT_VALUES) is None
}

/// The name a resource symbol stands for, once shifted down by `shift`.
pub open spec fn shifted_name(names: Map<u64, Seq<char>>, sym: u64, shift: u64) -> Option<Seq<char>> {
    if sym >= shift && names.contains_key((sym - shift) as u64) {
        Some(names[(sym - shift) as u64])
    } else {
        None
    }
}

/// Counts, by resource name, the image placeholders of a content tree; a
/// placeholder is counted once and not searched further.
pub open spec fn place_walk(c: Map<Seq<char>, usize>, m: IonModel, image: u64, names: Map<u64, Seq<char>>, shift: u64) -> Map<Seq<char>, usize>
    decreases m,
{
    match m {
        IonModel::Struct(fields) => if is_placeholder(m, image) {
            match shifted_name(names, symbol_field(m, FIELD_CONTENT_RESOURCE_SYMBOL).unwrap(), shift) {
                Some(name) => bumped(c, name),
                None => c,
            }
        } else {
            place_walk_fields(c, fields, image, names, shift)
        },
        IonModel::List(items) => place_walk_items(c, items, image, names, shift),
        IonModel::SExp(items) => place_walk_items(c, items, image, names, shift),
        IonModel::Annotation { value, .. } => place_walk(c, *value, image, names, shift),
        _ => c,
    }
}

pub open spec fn place_walk_items(c: Map<Seq<char>, usize>, s: Seq<IonModel>, image: u64, names: Map<u64, Seq<char>>, shift: u64) -> Map<Seq<char>, usize>
    decreases s,
{
    if s.len() == 0 {
        c
    } else {
        place_walk(place_walk_items(c, s.drop_last(), image, names, shift), s.last(), image, names, shift)
    }
}

pub open spec fn place_walk_fields(c: Map<Seq<char>, usize>, s: Seq<(u64, IonModel)>, image: u64, names: Map<u64, Seq<char>>, shift: u64) -> Map<Seq<char>, usize>
    decreases s,
{
    if s.len() == 0 {
        c
    } else {
        proof {
            assert(decreases_to!(s => s[s.len() - 1].1));
        }
        place_walk(place_walk_fields(c, s.drop_last(), image, names, shift), s.last().1, image, names, shift)
    }
}

fn is_placeholder_value(value: &IonValue, image_record_symbol: u64) -> (r: bool)
    ensures
        r == is_placeholder(value@, image_record_symbol),
{
    let node = symbol_field_of(value, FIELD_CONTENT_NODE_TYPE);
    let node_ok = match node {
        Some(s) => s == image_record_symbol,
        None => false,
    };
    if !node_ok || symbol_field_of(value, FIELD_CONTENT_RESOURCE_SYMBOL).is_none()
        || int_field_of(value, FIELD_NAV_TARGET_ID).is_none() {
        return false;
    }
    let blank = match string_field_of(value, FIELD_FRAGMENT_TEXT) {
        Some(t) => {
            let chars = chars_of(t);
            trim_chars(chars.as_slice()).len() == 0
        },
        None => false,
    };
    blank && struct_get(value, FIELD_CONTENT_STRING_REFERENCE).is_none()
        && struct_get(value, FIELD_TEXT_STYLE_EVENTS).is_none()
        && struct_get(value, FIELD_TEXT_VALUES).is_none()
}

/// Counts the image placeholders of `value` by the name of their resource
/// symbol (shifted down by `shift` before it is looked up in `symbols`).
pub fn count_placement_shapes(
    value: &IonValue,
    image_record_symbol: u64,
    symbols: &BTreeMap<u64, String>,
    shift: u64,
    counts: &mut CountMap,
)
    requires
        old(counts).wf(),
    ensures
        final(counts).wf(),
        final(counts).counts() == place_walk(old(counts).counts(), value@, image_record_symbol, name_map(symbols), shift),
    decreases value,
{
    match value {
        IonValue::Struct(fields) => {
            if is_placeholder_value(value, image_record_symbol) {
                let sym = symbol_field_of(value, FIELD_CONTENT_RESOURCE_SYMBOL);
                match sym {
                    Some(sym) => {
                        if sym >= shift {
                            match symbols.get(&(sym - shift)) {
                                Some(fid) => {
                                    counts.increment(fid.as_str());
                                },
                                None => {},
                            }
                        }
                    },
                    None => {},
                }
            } else {
                place_in_fields(fields, image_record_symbol, symbols, shift, counts);
            }
        },
        IonValue::List(items) => place_in_items(items, image_record_symbol, symbols, shift, counts),
        IonValue::SExp(items) => place_in_items(items, image_record_symbol, symbols, shift, counts),
        IonValue::Annotation { value: inner, .. } => count_placement_shapes(inner, image_record_symbol, symbols, shift, counts),
        _ => {},
    }
}

fn place_in_items(items: &Vec<IonValue>, image: u64, symbols: &BTreeMap<u64, String>, shift: u64, counts: &mut CountMap)
    requires
        old(counts).wf(),
    ensures
        final(counts).wf(),
        final(counts).counts() == place_walk_items(old(counts).counts(), models(items@), image, name_map(symbols), shift),
    decreases items,
{
    let ghost ms = models(items@);
    let ghost c0 = counts.counts();
    proof {
        lemma_models_index(items@);
    }
    let mut i: usize = 0;
    while i < items.len()
        invariant
            0 <= i <= items@.len(),
            counts.wf(),
            ms == models(items@),
            ms.len() == items@.len(),
            forall|k: int| 0 <= k < items@.len() ==> #[trigger] ms[k] == items@[k]@,
            counts.counts() == place_walk_items(c0, ms.subrange(0, i as int), image, name_map(symbols), shift),
        decreases items@.len() - i,
    {
        assert(decreases_to!(items => items@[i as int]));
        assert(ms.subrange(0, i + 1).drop_last() =~= ms.subrange(0, i as int));
        count_placement_shapes(&items[i], image, symbols, shift, counts);
        i = i + 1;
    }
    assert(ms.subrange(0, ms.len() as int) =~= ms);
}

fn place_in_fields(fields: &Vec<(u64, IonValue)>, image: u64, symbols: &BTreeMap<u64, String>, shift: u64, counts: &mut CountMap)
    requires
        old(counts).wf(),
    ensures
        final(counts).wf(),
        final(counts).counts() == place_walk_fields(old(counts).counts(), field_models(fields@), image, name_map(symbols), shift),
    decreases fields,
{
    let ghost fs = field_models(fields@);
    let ghost c0 = counts.counts();
    proof {
        lemma_field_models_index(fields@);
    }
    let mut i: usize = 0;
    while i < fields.len()
        invariant
            0 <= i <= fields@.len(),
            counts.wf(),
            fs == field_models(fields@),
            fs.len() == fields@.len(),
            forall|k: int| 0 <= k < fields@.len() ==> #[trigger] fs[k] == (fields@[k].0, fields@[k].1@),
            counts.counts() == place_walk_fields(c0, fs.subrange(0, i as int), image, name_map(symbols), shift),
        decreases fields@.len() - i,
    {
        assert(decreases_to!(fields => fields@[i as int].1));
        assert(fs.subrange(0, i + 1).drop_last() =~= fs.subrange(0, i as int));
        count_placement_shapes(&fields[i].1, image, symbols, shift, counts);
        i = i + 1;
    }
    assert(fs.subrange(0, fs.len() as int) =~= fs);
}

/// How many image placeholders of the content fragments point at each
/// resource name. With `content_symbol_ids` the placement record symbol
/// counts every earlier import's `max_id` whole and resource symbols are
/// shifted by the container's import shift (a container whose shift leaves
/// `u64` is passed over); otherwise the standard Ion numbering is used and
/// symbols are looked up as they stand.
pub open spec fn placements_spec(cs: Seq<ContainerOwnedView>, fs: Seq<FragmentView>, content_symbol_ids: bool) -> Map<Seq<char>, usize>
    decreases fs.len(),
{
    if fs.len() == 0 {
        Map::empty()
    } else {
        let prev = placements_spec(cs, fs.drop_last(), content_symbol_ids);
        let f = fs.last();
        if f.fragment_type != CONTENT_FRAGMENT_TYPE || f.container_index >= cs.len() {
            prev
        } else {
            let c = cs[f.container_index as int];
            let n = 9 * count_some_max(c.symbols.imports);
            match whitespace_symbol_spec(c.symbols.imports, !content_symbol_ids) {
                None => prev,
                Some(image) => if content_symbol_ids && n > u64::MAX {
                    prev
                } else {
                    let shift: u64 = if content_symbol_ids { n as u64 } else { 0 };
                    place_walk(prev, f.value, image, c.symbols.names, shift)
                },
            }
        }
    }
}

fn count_observed_placements_with_symbol_policy(model: &NativeModel, content_symbol_ids: bool) -> (r: CountMap)
    ensures
        r.wf(),
        r.counts() == placements_spec(model@.containers, model@.fragments, content_symbol_ids),
{
    let ghost cs = model@.containers;
    let ghost fv = model@.fragments;
    let mut counts = CountMap::new();
    let mut i: usize = 0;
    while i < model.fragments.len()
        invariant
            0 <= i <= model.fragments@.len(),
            cs == model@.containers,
            fv == model@.fragments,
            counts.wf(),
            counts.counts() == placements_spec(cs, fv.take(i as int), content_symbol_ids),
        decreases model.fragments@.len() - i,
    {
        proof {
            assert(fv.take(i + 1).drop_last() =~= fv.take(i as int));
            assert(fv[i as int] == model.fragments@[i as int]@);
        }
        let f = &model.fragments[i];
        if f.fragment_type == CONTENT_FRAGMENT_TYPE && f.container_index < model.containers.len() {
            let c = &model.containers[f.container_index];
            assert(cs[f.container_index as int] == c@);
            proof {
                assert(name_map(&c.symbols.names) =~= cs[f.container_index as int].symbols.names);
            }
            match whitespace_resource_record_symbol(&c.symbols.imports, !content_symbol_ids) {
                None => {},
                Some(image) => {
                    if content_symbol_ids {
                        match import_symbol_id_shift(c.symbols.imports.as_slice()) {
                            Some(shift) => {
                                count_placement_shapes(&f.value, image, &c.symbols.names, shift, &mut counts);
                            },
                            None => {},
                        }
                    } else {
                        count_placement_shapes(&f.value, image, &c.symbols.names, 0, &mut counts);
                    }
                },
            }
        }
        i = i + 1;
    }
    assert(fv.take(i as int) =~= fv);
    counts
}

/// Image placements per resource name, with content symbol ids.
pub fn count_observed_resource_placements(model: &NativeModel) -> (r: CountMap)
    ensures
        r.wf(),
        r.counts() == placements_spec(model@.containers, model@.fragments, true),
{
    count_observed_placements_with_symbol_policy(model, true)
}

/// Image placements per resource name, with standard Ion symbol ids.
pub fn count_observed_resource_placements_standard_ion(model: &NativeModel) -> (r: CountMap)
    ensures
        r.wf(),
        r.counts() == placements_spec(model@.containers, model@.fragments, false),
{
    count_observed_placements_with_symbol_policy(model, false)
}

} // verus!
