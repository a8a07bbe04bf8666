//! The audit records of external resources (`$164`), the summary over
//! them, and the source id of an audited file-set.
use vstd::prelude::*;
use crate::resource_audit::{AuditKeyView, KfxAuditFragmentKey, KfxAuditRawMedia};
use crate::native::{NativeResource, ResourceView, resource_views};
use crate::decode::opt_string_view;
use crate::media::{raster_dimensions, raster_spec, opt_view, or_empty, shape_spec, classify_resource_shape};
use crate::resource_audit::{
    KfxAuditTileLayout, KfxAuditSymbolReference, SymbolReferenceView, TileView, fragment_key_spec, fragment_key,
    resource_location_spec, resource_location, string_or_symbol_spec, audit_string_or_symbol, names_of,
    opt_container_view, tile_layout_spec, tile_view, audit_tile_layout, linked_symbols_spec, linked_symbols,
    strictly_increasing, field_id_set, sorted_field_ids, audit_dimension,
};
use crate::native::{ContainerOwnedView, NativeContainerOwned, NativeFragment, NativeModel, FragmentView, container_views};
use crate::nav::to_u32;
use crate::ion::{IonModel, IonValue};
use crate::value::{field_of, int_field, struct_get, opt_model};
use crate::counts::CountMap;
use crate::resource_audit::{
    KfxAuditContainer, KfxAuditCompositeFragment, stable_order, references_spec, placements_spec,
};
use crate::native::{NativeModelView, fragment_views};
use crate::resource_audit::{
    raw_list_ok, composite_list_ok, audit_container_spec, key_views, audit_order, audit_raw_media,
    audit_composite_fragments, audit_containers, count_resource_references, count_resource_references_standard_ion,
    count_observed_resource_placements, count_observed_resource_placements_standard_ion,
};
use crate::inspect::{native_spec, parse_native_sources};
use crate::error::{AmazonKfxError, KfxErrorView, ParseMode};
use crate::text::{owned, str_eq, chars_of, string_from_chars};
use crate::digest::{sha256, sha256_digest};
use crate::media::{hex_spec, hex_lower};
use crate::native::input_views;

verus! {

/// A copy of an audit key.
pub fn copy_key(k: &KfxAuditFragmentKey) -> (r: KfxAuditFragmentKey)
    ensures
        r@ == k@,
{
    KfxAuditFragmentKey {
        container_origin: k.container_origin,
        fragment_type: k.fragment_type,
        fid: match &k.fid {
            Some(s) => Some(owned(s.as_str())),
            None => None,
        },
        native_entity_id: k.native_entity_id,
    }
}

/// The name under which a raw media record is indexed: its symbol name, or
/// the name of its id before system symbols were counted (`legacy`).
pub open spec fn raw_index_name(r: KfxAuditRawMedia, legacy: bool) -> Option<Seq<char>> {
    if legacy {
        opt_string_view(r.symbol_name_legacy_unadjusted_audit_only)
    } else {
        opt_string_view(r.symbol_name)
    }
}

/// The keys of the raw media indexed under `location`, in the order of
/// `raw`; none when there is no location.
pub open spec fn candidate_keys(raw: Seq<KfxAuditRawMedia>, location: Option<Seq<char>>, legacy: bool) -> Seq<AuditKeyView>
    decreases raw.len(),
{
    if raw.len() == 0 {
        Seq::empty()
    } else {
        let prev = candidate_keys(raw.drop_last(), location, legacy);
        if location is Some && raw_index_name(raw.last(), legacy) == location {
            prev.push(raw.last().fragment_key@)
        } else {
            prev
        }
    }
}

pub open spec fn key_seq(keys: Seq<KfxAuditFragmentKey>) -> Seq<AuditKeyView> {
    keys.map_values(|k: KfxAuditFragmentKey| k@)
}

fn opt_str_eq(a: &Option<String>, b: &str) -> (r: bool)
    ensures
        r == (opt_string_view(*a) == Some(b@)),
{
    match a {
        Some(s) => str_eq(s.as_str(), b),
        None => false,
    }
}

/// The raw media indexed under `location` (by symbol name, or by legacy
/// name). Over raw media already in audit order, this is the audit-ordered
/// list of the candidates.
pub fn raw_candidates(raw: &Vec<KfxAuditRawMedia>, location: Option<&str>, legacy: bool) -> (r: Vec<KfxAuditFragmentKey>)
    ensures
        key_seq(r@) == candidate_keys(raw@, opt_view(location), legacy),
{
    let mut out: Vec<KfxAuditFragmentKey> = Vec::new();
    let mut i: usize = 0;
    while i < raw.len()
        invariant
            0 <= i <= raw@.len(),
            key_seq(out@) == candidate_keys(raw@.take(i as int), opt_view(location), legacy),
        decreases raw@.len() - i,
    {
        proof {
            assert(raw@.take(i + 1).drop_last() =~= raw@.take(i as int));
        }
        match location {
            Some(loc) => {
                let hit = if legacy {
                    opt_str_eq(&raw[i].symbol_name_legacy_unadjusted_audit_only, loc)
                } else {
                    opt_str_eq(&raw[i].symbol_name, loc)
                };
                if hit {
                    let ghost before = out@;
                    out.push(copy_key(&raw[i].fragment_key));
                    assert(key_seq(out@) =~= key_seq(before).push(raw@[i as int].fragment_key@));
                }
            },
            None => {},
        }
        i = i + 1;
    }
    assert(raw@.take(i as int) =~= raw@);
    out
}

/// The positions of the resources whose raster dimensions are `dims`.
pub open spec fn dimension_matches(rs: Seq<ResourceView>, dims: (u32, u32)) -> Seq<usize>
    decreases rs.len(),
{
    if rs.len() == 0 {
        Seq::empty()
    } else {
        let prev = dimension_matches(rs.drop_last(), dims);
        if raster_spec(rs.last().bytes) == Some(dims) {
            prev.push((rs.len() - 1) as usize)
        } else {
            prev
        }
    }
}

proof fn lemma_dimension_matches_bound(rs: Seq<ResourceView>, dims: (u32, u32))
    ensures
        forall|k: int| 0 <= k < dimension_matches(rs, dims).len() ==> #[trigger] dimension_matches(rs, dims)[k] < rs.len(),
    decreases rs.len(),
{
    if rs.len() > 0 {
        let prev = dimension_matches(rs.drop_last(), dims);
        lemma_dimension_matches_bound(rs.drop_last(), dims);
        assert forall|k: int| 0 <= k < dimension_matches(rs, dims).len() implies #[trigger] dimension_matches(rs, dims)[k] < rs.len() by {
            if k < prev.len() {
                assert(prev[k] < rs.drop_last().len());
            }
        }
    }
}

pub fn dimension_candidates(resources: &Vec<NativeResource>, dims: (u32, u32)) -> (r: Vec<usize>)
    ensures
        r@ == dimension_matches(resource_views(resources@), dims),
        forall|k: int| 0 <= k < r@.len() ==> #[trigger] r@[k] < resources@.len(),
{
    let ghost rv = resource_views(resources@);
    let mut out: Vec<usize> = Vec::new();
    let mut i: usize = 0;
    while i < resources.len()
        invariant
            0 <= i <= resources@.len(),
            rv == resource_views(resources@),
            rv.len() == resources@.len(),
            out@ == dimension_matches(rv.take(i as int), dims),
        decreases resources@.len() - i,
    {
        proof {
            assert(rv.take(i + 1).drop_last() =~= rv.take(i as int));
            assert(rv[i as int] == resources@[i as int]@);
        }
        if raster_dimensions(resources[i].bytes.as_slice()) == Some(dims) {
            out.push(i);
        }
        i = i + 1;
    }
    assert(rv.take(i as int) =~= rv);
    proof {
        lemma_dimension_matches_bound(rv, dims);
    }
    out
}

pub fn bytes_equal(a: &[u8], b: &[u8]) -> (r: bool)
    ensures
        r == (a@ == b@),
{
    if a.len() != b.len() {
        return false;
    }
    let mut i: usize = 0;
    while i < a.len()
        invariant
            0 <= i <= a@.len(),
            a@.len() == b@.len(),
            forall|k: int| 0 <= k < i ==> a@[k] == b@[k],
        decreases a@.len() - i,
    {
        if a[i] != b[i] {
            return false;
        }
        i = i + 1;
    }
    assert(a@ =~= b@);
    true
}

/// Whether every matched resource holds the same bytes as the first.
pub open spec fn same_bytes(rs: Seq<ResourceView>, idx: Seq<usize>) -> bool {
    forall|k: int| 0 <= k < idx.len() ==> #[trigger] rs[idx[k] as int].bytes == rs[idx[0] as int].bytes
}

pub fn all_same_bytes(resources: &Vec<NativeResource>, idx: &Vec<usize>) -> (r: bool)
    requires
        idx@.len() > 0,
        forall|k: int| 0 <= k < idx@.len() ==> #[trigger] idx@[k] < resources@.len(),
    ensures
        r == same_bytes(resource_views(resources@), idx@),
{
    let ghost rv = resource_views(resources@);
    let first = &resources[idx[0]].bytes;
    assert(rv[idx@[0] as int] == resources@[idx@[0] as int]@);
    let mut k: usize = 0;
    while k < idx.len()
        invariant
            0 <= k <= idx@.len(),
            idx@.len() > 0,
            rv == resource_views(resources@),
            forall|j: int| 0 <= j < idx@.len() ==> #[trigger] idx@[j] < resources@.len(),
            first@ == rv[idx@[0] as int].bytes,
            forall|j: int| 0 <= j < k ==> #[trigger] rv[idx@[j] as int].bytes == rv[idx@[0] as int].bytes,
        decreases idx@.len() - k,
    {
        assert(rv[idx@[k as int] as int] == resources@[idx@[k as int] as int]@);
        if !bytes_equal(resources[idx[k]].bytes.as_slice(), first.as_slice()) {
            assert(rv[idx@[k as int] as int].bytes != rv[idx@[0] as int].bytes);
            return false;
        }
        k = k + 1;
    }
    true
}

pub const FIELD_RESOURCE_FORMAT: u64 = 161;
pub const FIELD_RESOURCE_MIME: u64 = 162;
pub const FIELD_RESOURCE_TILE_GRID: u64 = 636;
pub const FIELD_RESOURCE_OVERLAPPED_TILES: u64 = 797;
pub const FIELD_RESOURCE_WIDTH_FALLBACK: u64 = 66;
pub const FIELD_RESOURCE_HEIGHT_FALLBACK: u64 = 67;
pub const FIELD_RESOURCE_PIXEL_WIDTH: u64 = 422;
pub const FIELD_RESOURCE_PIXEL_HEIGHT: u64 = 423;

/// The audit record of an external resource (`$164`).
#[derive(Debug)]
pub struct KfxAuditExternalResource {
    pub fragment_key: KfxAuditFragmentKey,
    pub location: Option<String>,
    pub location_symbol_id: Option<u64>,
    pub location_source: String,
    pub normalized_location: Option<String>,
    pub declared_mime: Option<String>,
    pub declared_format: Option<String>,
    pub declared_dimensions: Option<(u32, u32)>,
    pub tile_field_ids: Option<Vec<u64>>,
    pub tile_layout: Option<KfxAuditTileLayout>,
    pub metadata_field_ids: Vec<u64>,
    pub linked_symbols_by_field: Vec<KfxAuditSymbolReference>,
    pub reference_count: usize,
    pub visible_placement_count: usize,
    pub reference_count_standard_ion_audit_only: usize,
    pub visible_placement_count_standard_ion_audit_only: usize,
    pub production_binding_status: String,
    pub production_diagnostic_code: Option<String>,
    pub identity_status: String,
    pub identity_reason: String,
    pub identity_classification: String,
    pub resource_shape_classification: String,
    pub candidate_raw_media: Vec<KfxAuditFragmentKey>,
    pub candidate_raw_media_legacy_unadjusted_audit_only: Vec<KfxAuditFragmentKey>,
    pub dimension_candidate_count_audit_only: usize,
    pub prior_dimension_only_match_audit_only: bool,
}

/// How the exact identity of a record came out: its status and reason.
pub open spec fn identity_spec(location: Option<Seq<char>>, normalized: Option<Seq<char>>, candidates: nat, any_resources: bool) -> (Seq<char>, Seq<char>) {
    match normalized {
        None => if location is None {
            ("unresolved"@, "MissingLocation"@)
        } else {
            ("unresolved"@, "InvalidReference"@)
        },
        Some(_) => if candidates == 0 && any_resources {
            ("RawMediaExistsButLookupFailed"@, "MissingExactLocationToRawFid"@)
        } else if candidates == 0 {
            ("unresolved"@, "MissingRawMedia"@)
        } else if candidates > 1 {
            ("unresolved"@, "DuplicateRawMedia"@)
        } else {
            ("ResolvedByExactIdentity"@, "ExactLocationToRawFid"@)
        },
    }
}

pub open spec fn or_else_u32(a: Option<u32>, b: Option<u32>) -> Option<u32> {
    if a is Some { a } else { b }
}

/// The declared pixel size: width `$422` (or `$66`) and height `$423` (or
/// `$67`), when both are there and fit `u32`.
pub open spec fn declared_dimensions_spec(v: IonModel) -> Option<(u32, u32)> {
    let w = or_else_u32(to_u32(int_field(v, FIELD_RESOURCE_PIXEL_WIDTH)), to_u32(int_field(v, FIELD_RESOURCE_WIDTH_FALLBACK)));
    let h = or_else_u32(to_u32(int_field(v, FIELD_RESOURCE_PIXEL_HEIGHT)), to_u32(int_field(v, FIELD_RESOURCE_HEIGHT_FALLBACK)));
    match (w, h) {
        (Some(a), Some(b)) => Some((a, b)),
        _ => None,
    }
}

/// The tiling fields (`$636`, `$797`) that the record has, in that order.
pub open spec fn tile_ids_spec(v: IonModel) -> Seq<u64> {
    let a: Seq<u64> = if field_of(v, FIELD_RESOURCE_TILE_GRID) is Some { seq![FIELD_RESOURCE_TILE_GRID] } else { Seq::empty() };
    if field_of(v, FIELD_RESOURCE_OVERLAPPED_TILES) is Some { a.push(FIELD_RESOURCE_OVERLAPPED_TILES) } else { a }
}

/// The count a map holds for `key`, zero when it holds none.
pub open spec fn count_of(m: Map<Seq<char>, usize>, key: Seq<char>) -> usize {
    if m.contains_key(key) { m[key] } else { 0 }
}

pub open spec fn container_at(cs: Seq<ContainerOwnedView>, ci: usize) -> Option<ContainerOwnedView> {
    if ci < cs.len() { Some(cs[ci as int]) } else { None }
}

pub open spec fn opt_ids_view(r: Option<Vec<u64>>) -> Option<Seq<u64>> {
    match r {
        Some(v) => Some(v@),
        None => None,
    }
}

/// The production resolver's answer for a record, handed in: whether it
/// bound the record exactly, and its diagnostic code.
pub struct ProductionBindingView {
    pub exact: bool,
    pub diagnostic_code: Option<Seq<char>>,
}

/// What the record of external resource `f` holds, given the raw media in
/// audit order, the four count maps, the normalized location and the
/// production binding.
pub open spec fn external_ok(
    r: KfxAuditExternalResource,
    cs: Seq<ContainerOwnedView>,
    rs: Seq<ResourceView>,
    f: FragmentView,
    raw: Seq<KfxAuditRawMedia>,
    counts: (Map<Seq<char>, usize>, Map<Seq<char>, usize>, Map<Seq<char>, usize>, Map<Seq<char>, usize>),
    normalized: Option<Seq<char>>,
    production: ProductionBindingView,
) -> bool {
    let (location, location_symbol, location_source) = resource_location_spec(cs, f);
    let names = names_of(container_at(cs, f.container_index));
    let candidates = candidate_keys(raw, location, false);
    let legacy = candidate_keys(raw, location, true);
    let dims = declared_dimensions_spec(f.value);
    let matches: Seq<usize> = match dims { Some(d) => dimension_matches(rs, d), None => Seq::empty() };
    let tiles = tile_ids_spec(f.value);
    let format = string_or_symbol_spec(field_of(f.value, FIELD_RESOURCE_FORMAT), names);
    let mime = string_or_symbol_spec(field_of(f.value, FIELD_RESOURCE_MIME), names);
    let key = or_empty(location);
    let (status, reason) = identity_spec(location, normalized, candidates.len(), rs.len() > 0);
    &&& r.fragment_key@ == fragment_key_spec(cs, f)
    &&& opt_string_view(r.location) == location
    &&& r.location_symbol_id == location_symbol
    &&& r.location_source@ == location_source
    &&& opt_string_view(r.normalized_location) == normalized
    &&& opt_string_view(r.declared_mime) == mime
    &&& opt_string_view(r.declared_format) == format
    &&& r.declared_dimensions == dims
    &&& opt_ids_view(r.tile_field_ids) == if tiles.len() > 0 { Some(tiles) } else { None }
    &&& tile_view(r.tile_layout) == tile_layout_spec(field_of(f.value, FIELD_RESOURCE_TILE_GRID), field_of(f.value, FIELD_RESOURCE_OVERLAPPED_TILES) is Some, names)
    &&& strictly_increasing(r.metadata_field_ids@)
    &&& r.metadata_field_ids@.to_set() == field_id_set(f.value)
    &&& r.linked_symbols_by_field@.map_values(|x: KfxAuditSymbolReference| x@) == linked_symbols_spec(cs, f)
    &&& r.reference_count == count_of(counts.0, key)
    &&& r.visible_placement_count == count_of(counts.1, key)
    &&& r.reference_count_standard_ion_audit_only == count_of(counts.2, key)
    &&& r.visible_placement_count_standard_ion_audit_only == count_of(counts.3, key)
    &&& r.production_binding_status@ == if production.exact { "Exact"@ } else { "Unresolved"@ }
    &&& opt_string_view(r.production_diagnostic_code) == production.diagnostic_code
    &&& r.identity_status@ == status
    &&& r.identity_reason@ == reason
    &&& r.identity_classification@ == if status == "ResolvedByExactIdentity"@ { "ResolvedByExactIdentity"@ } else { "StillUnknown"@ }
    &&& r.resource_shape_classification@ == shape_spec(or_empty(format), or_empty(mime), tiles.len() > 0, field_of(f.value, FIELD_RESOURCE_OVERLAPPED_TILES) is Some)
    &&& key_seq(r.candidate_raw_media@) == candidates
    &&& key_seq(r.candidate_raw_media_legacy_unadjusted_audit_only@) == legacy
    &&& r.dimension_candidate_count_audit_only == matches.len()
    &&& r.prior_dimension_only_match_audit_only == (legacy.len() == 0 && matches.len() > 0 && same_bytes(rs, matches))
}

fn or_else_dimension(value: &IonValue, first: u64, second: u64) -> (r: Option<u32>)
    ensures
        r == or_else_u32(to_u32(int_field(value@, first)), to_u32(int_field(value@, second))),
{
    match audit_dimension(value, first) {
        Some(d) => Some(d),
        None => audit_dimension(value, second),
    }
}

pub fn declared_dimensions(value: &IonValue) -> (r: Option<(u32, u32)>)
    ensures
        r == declared_dimensions_spec(value@),
{
    let w = or_else_dimension(value, FIELD_RESOURCE_PIXEL_WIDTH, FIELD_RESOURCE_WIDTH_FALLBACK);
    let h = or_else_dimension(value, FIELD_RESOURCE_PIXEL_HEIGHT, FIELD_RESOURCE_HEIGHT_FALLBACK);
    match (w, h) {
        (Some(a), Some(b)) => Some((a, b)),
        _ => None,
    }
}

fn tile_field_ids(value: &IonValue) -> (r: Vec<u64>)
    ensures
        r@ == tile_ids_spec(value@),
{
    let mut out: Vec<u64> = Vec::new();
    if struct_get(value, FIELD_RESOURCE_TILE_GRID).is_some() {
        out.push(FIELD_RESOURCE_TILE_GRID);
    }
    assert(out@ =~= (if field_of(value@, FIELD_RESOURCE_TILE_GRID) is Some { seq![FIELD_RESOURCE_TILE_GRID] } else { Seq::<u64>::empty() }));
    if struct_get(value, FIELD_RESOURCE_OVERLAPPED_TILES).is_some() {
        out.push(FIELD_RESOURCE_OVERLAPPED_TILES);
    }
    out
}

/// The identity status and reason of a record.
pub fn identity(location_known: bool, normalized_known: bool, candidates: usize, any_resources: bool) -> (r: (String, String))
    ensures
        forall|l: Option<Seq<char>>, n: Option<Seq<char>>| l is Some == location_known && n is Some == normalized_known
            ==> (#[trigger] identity_spec(l, n, candidates as nat, any_resources)) == (r.0@, r.1@),
{
    if !normalized_known {
        if !location_known {
            (owned("unresolved"), owned("MissingLocation"))
        } else {
            (owned("unresolved"), owned("InvalidReference"))
        }
    } else if candidates == 0 && any_resources {
        (owned("RawMediaExistsButLookupFailed"), owned("MissingExactLocationToRawFid"))
    } else if candidates == 0 {
        (owned("unresolved"), owned("MissingRawMedia"))
    } else if candidates > 1 {
        (owned("unresolved"), owned("DuplicateRawMedia"))
    } else {
        (owned("ResolvedByExactIdentity"), owned("ExactLocationToRawFid"))
    }
}

fn copy_opt_string(s: &Option<String>) -> (r: Option<String>)
    ensures
        opt_string_view(r) == opt_string_view(*s),
{
    match s {
        Some(x) => Some(owned(x.as_str())),
        None => None,
    }
}

fn opt_as_str(s: &Option<String>) -> (r: Option<&str>)
    ensures
        opt_view(r) == opt_string_view(*s),
{
    match s {
        Some(x) => Some(x.as_str()),
        None => None,
    }
}

/// Builds the audit record of external resource `fragment`. `raw_media` is
/// the file-set's raw media in audit order; the four count maps are the
/// references and placements with content symbol ids, then with standard
/// Ion ids; `normalized_location` and the production binding are what the
/// resource path resolver made of this record.
pub fn audit_external_resource(
    model: &NativeModel,
    fragment: &NativeFragment,
    raw_media: &Vec<KfxAuditRawMedia>,
    references: &CountMap,
    placements: &CountMap,
    standard_ion_references: &CountMap,
    standard_ion_placements: &CountMap,
    normalized_location: Option<String>,
    production_exact: bool,
    production_diagnostic_code: Option<String>,
) -> (r: KfxAuditExternalResource)
    requires
        references.wf(),
        placements.wf(),
        standard_ion_references.wf(),
        standard_ion_placements.wf(),
    ensures
        external_ok(
            r,
            model@.containers,
            model@.resources,
            fragment@,
            raw_media@,
            (references.counts(), placements.counts(), standard_ion_references.counts(), standard_ion_placements.counts()),
            opt_string_view(normalized_location),
            ProductionBindingView { exact: production_exact, diagnostic_code: opt_string_view(production_diagnostic_code) },
        ),
{
    let ghost cs = model@.containers;
    let ghost rs = model@.resources;
    proof {
        assert(container_views(model.containers@) == cs);
        assert(resource_views(model.resources@) == rs);
    }
    let (location, location_symbol_id, location_source) = resource_location(&model.containers, fragment);
    let container: Option<&NativeContainerOwned> = if fragment.container_index < model.containers.len() {
        Some(&model.containers[fragment.container_index])
    } else {
        None
    };
    assert(opt_container_view(container) == container_at(cs, fragment.container_index));
    let candidates = raw_candidates(raw_media, opt_as_str(&location), false);
    let legacy_candidates = raw_candidates(raw_media, opt_as_str(&location), true);
    let dims = declared_dimensions(&fragment.value);
    let matches: Vec<usize> = match dims {
        Some(d) => dimension_candidates(&model.resources, d),
        None => Vec::new(),
    };
    let prior = legacy_candidates.len() == 0 && matches.len() > 0 && all_same_bytes(&model.resources, &matches);
    let tiles = tile_field_ids(&fragment.value);
    let overlapped = struct_get(&fragment.value, FIELD_RESOURCE_OVERLAPPED_TILES).is_some();
    let format = audit_string_or_symbol(struct_get(&fragment.value, FIELD_RESOURCE_FORMAT), container);
    let mime = audit_string_or_symbol(struct_get(&fragment.value, FIELD_RESOURCE_MIME), container);
    let tile_layout = audit_tile_layout(struct_get(&fragment.value, FIELD_RESOURCE_TILE_GRID), overlapped, container);
    let shape = classify_resource_shape(opt_as_str(&format), opt_as_str(&mime), tiles.len() > 0, overlapped);
    let key: &str = match &location {
        Some(l) => l.as_str(),
        None => "",
    };
    proof {
        reveal_strlit("");
        assert(key@ == or_empty(opt_string_view(location)));
    }
    let (status, reason) = identity(location.is_some(), normalized_location.is_some(), candidates.len(), model.resources.len() > 0);
    proof {
        assert(candidates@.len() == key_seq(candidates@).len());
    }
    let classification = if str_eq(status.as_str(), "ResolvedByExactIdentity") {
        owned("ResolvedByExactIdentity")
    } else {
        owned("StillUnknown")
    };
    KfxAuditExternalResource {
        fragment_key: fragment_key(&model.containers, fragment),
        location: copy_opt_string(&location),
        location_symbol_id,
        location_source,
        normalized_location,
        declared_mime: mime,
        declared_format: format,
        declared_dimensions: dims,
        tile_field_ids: if tiles.len() > 0 { Some(tiles) } else { None },
        tile_layout,
        metadata_field_ids: sorted_field_ids(&fragment.value),
        linked_symbols_by_field: linked_symbols(&model.containers, fragment),
        reference_count: references.get(key),
        visible_placement_count: placements.get(key),
        reference_count_standard_ion_audit_only: standard_ion_references.get(key),
        visible_placement_count_standard_ion_audit_only: standard_ion_placements.get(key),
        production_binding_status: if production_exact { owned("Exact") } else { owned("Unresolved") },
        production_diagnostic_code,
        identity_status: status,
        identity_reason: reason,
        identity_classification: classification,
        resource_shape_classification: shape,
        candidate_raw_media: candidates,
        candidate_raw_media_legacy_unadjusted_audit_only: legacy_candidates,
        dimension_candidate_count_audit_only: matches.len(),
        prior_dimension_only_match_audit_only: prior,
    }
}

/// Totals over the audit records.
#[derive(Debug)]
pub struct KfxAuditSummary {
    pub external_resource_count: usize,
    pub raw_media_count: usize,
    pub exact_identity_resolved: usize,
    pub unresolved: usize,
    pub duplicate_identity: usize,
    pub raw_media_exists_but_lookup_failed: usize,
    pub unresolved_referenced_records: usize,
    pub referenced_unresolved_occurrences: usize,
    pub unresolved_visibly_placed_records: usize,
    pub visibly_placed_unresolved_positions: usize,
    pub prior_dimension_only_matches_audit_only: usize,
    pub composite_fragments_unknown: usize,
    pub resource_shapes_unknown: usize,
    pub legacy_unadjusted_symbol_offset_matches_audit_only: usize,
    pub standard_ion_reference_occurrences_audit_only: usize,
    pub standard_ion_visible_placement_positions_audit_only: usize,
    pub production_exact_bindings: usize,
    pub production_unresolved_bindings: usize,
    pub production_unresolved_visible_placement_positions: usize,
}

/// The sum of `v` over the records that satisfy `p`.
pub open spec fn sum_where(
    s: Seq<KfxAuditExternalResource>,
    p: spec_fn(KfxAuditExternalResource) -> bool,
    v: spec_fn(KfxAuditExternalResource) -> nat,
) -> nat
    decreases s.len(),
{
    if s.len() == 0 {
        0
    } else {
        sum_where(s.drop_last(), p, v) + if p(s.last()) { v(s.last()) } else { 0 }
    }
}

/// The number of records that satisfy `p`.
pub open spec fn count_where(s: Seq<KfxAuditExternalResource>, p: spec_fn(KfxAuditExternalResource) -> bool) -> nat {
    sum_where(s, p, |r: KfxAuditExternalResource| 1nat)
}

pub open spec fn resolved(r: KfxAuditExternalResource) -> bool {
    r.identity_status@ == "ResolvedByExactIdentity"@
}

pub open spec fn every(r: KfxAuditExternalResource) -> bool {
    true
}

pub open spec fn unresolved_rec(r: KfxAuditExternalResource) -> bool {
    !resolved(r)
}

pub open spec fn references_of(r: KfxAuditExternalResource) -> nat {
    r.reference_count as nat
}

pub open spec fn placements_of(r: KfxAuditExternalResource) -> nat {
    r.visible_placement_count as nat
}

pub open spec fn standard_references_of(r: KfxAuditExternalResource) -> nat {
    r.reference_count_standard_ion_audit_only as nat
}

pub open spec fn standard_placements_of(r: KfxAuditExternalResource) -> nat {
    r.visible_placement_count_standard_ion_audit_only as nat
}

pub open spec fn p_resolved() -> spec_fn(KfxAuditExternalResource) -> bool {
    |x: KfxAuditExternalResource| resolved(x)
}

pub open spec fn p_unresolved() -> spec_fn(KfxAuditExternalResource) -> bool {
    |x: KfxAuditExternalResource| unresolved_rec(x)
}

pub open spec fn p_duplicate() -> spec_fn(KfxAuditExternalResource) -> bool {
    |x: KfxAuditExternalResource| unresolved_rec(x) && x.identity_reason@ == "DuplicateRawMedia"@
}

pub open spec fn p_lookup_failed() -> spec_fn(KfxAuditExternalResource) -> bool {
    |x: KfxAuditExternalResource| x.identity_status@ == "RawMediaExistsButLookupFailed"@
}

pub open spec fn p_unresolved_referenced() -> spec_fn(KfxAuditExternalResource) -> bool {
    |x: KfxAuditExternalResource| unresolved_rec(x) && x.reference_count > 0
}

pub open spec fn p_unresolved_placed() -> spec_fn(KfxAuditExternalResource) -> bool {
    |x: KfxAuditExternalResource| unresolved_rec(x) && x.visible_placement_count > 0
}

pub open spec fn p_prior() -> spec_fn(KfxAuditExternalResource) -> bool {
    |x: KfxAuditExternalResource| x.prior_dimension_only_match_audit_only
}

pub open spec fn p_shape_unknown() -> spec_fn(KfxAuditExternalResource) -> bool {
    |x: KfxAuditExternalResource| x.resource_shape_classification@ == "Unknown"@
}

pub open spec fn p_legacy_only() -> spec_fn(KfxAuditExternalResource) -> bool {
    |x: KfxAuditExternalResource| x.candidate_raw_media@.len() == 0 && x.candidate_raw_media_legacy_unadjusted_audit_only@.len() > 0
}

pub open spec fn p_every() -> spec_fn(KfxAuditExternalResource) -> bool {
    |x: KfxAuditExternalResource| every(x)
}

pub open spec fn v_references() -> spec_fn(KfxAuditExternalResource) -> nat {
    |x: KfxAuditExternalResource| references_of(x)
}

pub open spec fn v_placements() -> spec_fn(KfxAuditExternalResource) -> nat {
    |x: KfxAuditExternalResource| placements_of(x)
}

pub open spec fn v_standard_references() -> spec_fn(KfxAuditExternalResource) -> nat {
    |x: KfxAuditExternalResource| standard_references_of(x)
}

pub open spec fn v_standard_placements() -> spec_fn(KfxAuditExternalResource) -> nat {
    |x: KfxAuditExternalResource| standard_placements_of(x)
}

/// The four sums of the summary fit `usize`.
pub open spec fn sums_fit(s: Seq<KfxAuditExternalResource>) -> bool {
    &&& sum_where(s, p_unresolved(), v_references()) <= usize::MAX
    &&& sum_where(s, p_unresolved(), v_placements()) <= usize::MAX
    &&& sum_where(s, p_every(), v_standard_references()) <= usize::MAX
    &&& sum_where(s, p_every(), v_standard_placements()) <= usize::MAX
}

/// What the summary says of the records: each total is a count or a sum
/// over them, as its field name says.
pub open spec fn summary_ok(
    r: KfxAuditSummary,
    s: Seq<KfxAuditExternalResource>,
    raw_media_count: usize,
    composite_fragments_unknown: usize,
    production: (usize, usize, usize),
) -> bool {
    &&& r.external_resource_count == s.len()
    &&& r.raw_media_count == raw_media_count
    &&& r.exact_identity_resolved == count_where(s, p_resolved())
    &&& r.unresolved == count_where(s, p_unresolved())
    &&& r.duplicate_identity == count_where(s, p_duplicate())
    &&& r.raw_media_exists_but_lookup_failed == count_where(s, p_lookup_failed())
    &&& r.unresolved_referenced_records == count_where(s, p_unresolved_referenced())
    &&& r.referenced_unresolved_occurrences == sum_where(s, p_unresolved(), v_references())
    &&& r.unresolved_visibly_placed_records == count_where(s, p_unresolved_placed())
    &&& r.visibly_placed_unresolved_positions == sum_where(s, p_unresolved(), v_placements())
    &&& r.prior_dimension_only_matches_audit_only == count_where(s, p_prior())
    &&& r.composite_fragments_unknown == composite_fragments_unknown
    &&& r.resource_shapes_unknown == count_where(s, p_shape_unknown())
    &&& r.legacy_unadjusted_symbol_offset_matches_audit_only == count_where(s, p_legacy_only())
    &&& r.standard_ion_reference_occurrences_audit_only == sum_where(s, p_every(), v_standard_references())
    &&& r.standard_ion_visible_placement_positions_audit_only == sum_where(s, p_every(), v_standard_placements())
    &&& r.production_exact_bindings == production.0
    &&& r.production_unresolved_bindings == production.1
    &&& r.production_unresolved_visible_placement_positions == production.2
}

pub proof fn lemma_sum_prefix(
    s: Seq<KfxAuditExternalResource>,
    i: int,
    p: spec_fn(KfxAuditExternalResource) -> bool,
    v: spec_fn(KfxAuditExternalResource) -> nat,
)
    requires
        0 <= i <= s.len(),
    ensures
        sum_where(s.take(i), p, v) <= sum_where(s, p, v),
    decreases s.len() - i,
{
    if i < s.len() {
        lemma_sum_prefix(s, i + 1, p, v);
        assert(s.take(i + 1).drop_last() =~= s.take(i));
    } else {
        assert(s.take(i) =~= s);
    }
}

pub proof fn lemma_count_bound(s: Seq<KfxAuditExternalResource>, p: spec_fn(KfxAuditExternalResource) -> bool)
    ensures
        count_where(s, p) <= s.len(),
    decreases s.len(),
{
    if s.len() > 0 {
        lemma_count_bound(s.drop_last(), p);
    }
}

/// Totals over the external resource records; the production totals are
/// the resolver's, handed in.
#[verifier::rlimit(40)]
pub fn audit_summary(
    external: &Vec<KfxAuditExternalResource>,
    raw_media_count: usize,
    composite_fragments_unknown: usize,
    production_exact_bindings: usize,
    production_unresolved_bindings: usize,
    production_unresolved_visible_placement_positions: usize,
) -> (r: KfxAuditSummary)
    requires
        sums_fit(external@),
    ensures
        summary_ok(r, external@, raw_media_count, composite_fragments_unknown,
            (production_exact_bindings, production_unresolved_bindings, production_unresolved_visible_placement_positions)),
{
    let ghost s = external@;
    let mut exact: usize = 0;
    let mut unresolved: usize = 0;
    let mut duplicate: usize = 0;
    let mut lookup_failed: usize = 0;
    let mut unresolved_referenced: usize = 0;
    let mut unresolved_references: usize = 0;
    let mut unresolved_placed: usize = 0;
    let mut unresolved_placements: usize = 0;
    let mut prior: usize = 0;
    let mut shapes_unknown: usize = 0;
    let mut legacy_only: usize = 0;
    let mut standard_references: usize = 0;
    let mut standard_placements: usize = 0;
    let mut i: usize = 0;
    while i < external.len()
        invariant
            0 <= i <= s.len(),
            s == external@,
            sums_fit(s),
            exact == count_where(s.take(i as int), p_resolved()),
            unresolved == count_where(s.take(i as int), p_unresolved()),
            duplicate == count_where(s.take(i as int), p_duplicate()),
            lookup_failed == count_where(s.take(i as int), p_lookup_failed()),
            unresolved_referenced == count_where(s.take(i as int), p_unresolved_referenced()),
            unresolved_references == sum_where(s.take(i as int), p_unresolved(), v_references()),
            unresolved_placed == count_where(s.take(i as int), p_unresolved_placed()),
            unresolved_placements == sum_where(s.take(i as int), p_unresolved(), v_placements()),
            prior == count_where(s.take(i as int), p_prior()),
            shapes_unknown == count_where(s.take(i as int), p_shape_unknown()),
            legacy_only == count_where(s.take(i as int), p_legacy_only()),
            standard_references == sum_where(s.take(i as int), p_every(), v_standard_references()),
            standard_placements == sum_where(s.take(i as int), p_every(), v_standard_placements()),
        decreases s.len() - i,
    {
        let ghost t = s.take(i + 1);
        proof {
            assert(t.drop_last() =~= s.take(i as int));
            assert(t.last() == s[i as int]);
            lemma_sum_prefix(s, i + 1, p_unresolved(), v_references());
            lemma_sum_prefix(s, i + 1, p_unresolved(), v_placements());
            lemma_sum_prefix(s, i + 1, p_every(), v_standard_references());
            lemma_sum_prefix(s, i + 1, p_every(), v_standard_placements());
            lemma_count_bound(s.take(i as int), p_resolved());
            lemma_count_bound(s.take(i as int), p_unresolved());
            lemma_count_bound(s.take(i as int), p_duplicate());
            lemma_count_bound(s.take(i as int), p_lookup_failed());
            lemma_count_bound(s.take(i as int), p_unresolved_referenced());
            lemma_count_bound(s.take(i as int), p_unresolved_placed());
            lemma_count_bound(s.take(i as int), p_prior());
            lemma_count_bound(s.take(i as int), p_shape_unknown());
            lemma_count_bound(s.take(i as int), p_legacy_only());
        }
        let rec = &external[i];
        let is_resolved = str_eq(rec.identity_status.as_str(), "ResolvedByExactIdentity");
        if is_resolved {
            exact = exact + 1;
        } else {
            unresolved = unresolved + 1;
            if str_eq(rec.identity_reason.as_str(), "DuplicateRawMedia") {
                duplicate = duplicate + 1;
            }
            if rec.reference_count > 0 {
                unresolved_referenced = unresolved_referenced + 1;
            }
            if rec.visible_placement_count > 0 {
                unresolved_placed = unresolved_placed + 1;
            }
            unresolved_references = unresolved_references + rec.reference_count;
            unresolved_placements = unresolved_placements + rec.visible_placement_count;
        }
        if str_eq(rec.identity_status.as_str(), "RawMediaExistsButLookupFailed") {
            lookup_failed = lookup_failed + 1;
        }
        if rec.prior_dimension_only_match_audit_only {
            prior = prior + 1;
        }
        if str_eq(rec.resource_shape_classification.as_str(), "Unknown") {
            shapes_unknown = shapes_unknown + 1;
        }
        if rec.candidate_raw_media.len() == 0 && rec.candidate_raw_media_legacy_unadjusted_audit_only.len() > 0 {
            legacy_only = legacy_only + 1;
        }
        standard_references = standard_references + rec.reference_count_standard_ion_audit_only;
        standard_placements = standard_placements + rec.visible_placement_count_standard_ion_audit_only;
        i = i + 1;
    }
    assert(s.take(i as int) =~= s);
    KfxAuditSummary {
        external_resource_count: external.len(),
        raw_media_count,
        exact_identity_resolved: exact,
        unresolved,
        duplicate_identity: duplicate,
        raw_media_exists_but_lookup_failed: lookup_failed,
        unresolved_referenced_records: unresolved_referenced,
        referenced_unresolved_occurrences: unresolved_references,
        unresolved_visibly_placed_records: unresolved_placed,
        visibly_placed_unresolved_positions: unresolved_placements,
        prior_dimension_only_matches_audit_only: prior,
        composite_fragments_unknown,
        resource_shapes_unknown: shapes_unknown,
        legacy_unadjusted_symbol_offset_matches_audit_only: legacy_only,
        standard_ion_reference_occurrences_audit_only: standard_references,
        standard_ion_visible_placement_positions_audit_only: standard_placements,
        production_exact_bindings,
        production_unresolved_bindings,
        production_unresolved_visible_placement_positions,
    }
}

/// The `k` low bytes of `v`, least significant first.
pub open spec fn le_bytes(v: nat, k: nat) -> Seq<u8>
    decreases k,
{
    if k == 0 {
        Seq::empty()
    } else {
        seq![(v % 256) as u8] + le_bytes(v / 256, (k - 1) as nat)
    }
}

/// The inputs of a file-set as the audit hashes them: each input's length
/// as eight little-endian bytes, then the input.
pub open spec fn framed(inputs: Seq<Seq<u8>>) -> Seq<u8>
    decreases inputs.len(),
{
    if inputs.len() == 0 {
        Seq::empty()
    } else {
        framed(inputs.drop_last()) + le_bytes(inputs.last().len(), 8) + inputs.last()
    }
}

/// `KFX-RI-` and the first sixteen hexadecimal digits of the SHA-256 of
/// the framed inputs.
pub open spec fn source_id_spec(inputs: Seq<Seq<u8>>) -> Seq<char> {
    "KFX-RI-"@ + hex_spec(sha256(framed(inputs))).take(16)
}

fn push_le64(out: &mut Vec<u8>, n: u64)
    ensures
        final(out)@ == old(out)@ + le_bytes(n as nat, 8),
{
    let ghost start = out@;
    let mut v: u64 = n;
    let mut k: usize = 0;
    while k < 8
        invariant
            0 <= k <= 8,
            out@ + le_bytes(v as nat, (8 - k) as nat) == start + le_bytes(n as nat, 8),
        decreases 8 - k,
    {
        let ghost before = out@;
        let ghost rest = le_bytes((v / 256) as nat, (8 - k - 1) as nat);
        assert(le_bytes(v as nat, (8 - k) as nat) == seq![(v % 256) as u8] + rest);
        out.push((v % 256) as u8);
        assert(out@ + rest =~= before + (seq![(v % 256) as u8] + rest));
        v = v / 256;
        k = k + 1;
    }
    assert(le_bytes(v as nat, 0) =~= Seq::<u8>::empty());
    assert(out@ + Seq::<u8>::empty() =~= out@);
}

/// The bytes that identify an audited file-set.
pub fn framed_inputs(inputs: &[&[u8]]) -> (r: Vec<u8>)
    ensures
        r@ == framed(input_views(inputs@)),
{
    let ghost iv = input_views(inputs@);
    let mut out: Vec<u8> = Vec::new();
    let mut i: usize = 0;
    while i < inputs.len()
        invariant
            0 <= i <= inputs@.len(),
            iv == input_views(inputs@),
            iv.len() == inputs@.len(),
            out@ == framed(iv.take(i as int)),
        decreases inputs@.len() - i,
    {
        let input: &[u8] = inputs[i];
        proof {
            assert(iv.take(i + 1).drop_last() =~= iv.take(i as int));
            assert(iv[i as int] == inputs@[i as int]@);
        }
        push_le64(&mut out, input.len() as u64);
        let ghost mid = out@;
        let mut j: usize = 0;
        while j < input.len()
            invariant
                0 <= j <= input@.len(),
                out@ == mid + input@.take(j as int),
            decreases input@.len() - j,
        {
            out.push(input[j]);
            assert(out@ =~= mid + input@.take(j + 1));
            j = j + 1;
        }
        assert(input@.take(j as int) =~= input@);
        i = i + 1;
    }
    assert(iv.take(i as int) =~= iv);
    out
}

proof fn lemma_hex_len(b: Seq<u8>)
    ensures
        hex_spec(b).len() == 2 * b.len(),
    decreases b.len(),
{
    if b.len() > 0 {
        lemma_hex_len(b.subrange(0, b.len() - 1));
    }
}

/// The source id of an audited file-set.
pub fn resource_audit_source_id(inputs: &[&[u8]]) -> (r: String)
    ensures
        r@ == source_id_spec(input_views(inputs@)),
{
    let framed_bytes = framed_inputs(inputs);
    let digest = sha256_digest(framed_bytes.as_slice());
    let hex = hex_lower(digest.as_slice());
    proof {
        lemma_hex_len(digest@);
    }
    let digits = chars_of(hex.as_str());
    let mut out: Vec<char> = chars_of("KFX-RI-");
    proof {
        reveal_strlit("KFX-RI-");
    }
    let ghost prefix = out@;
    let mut k: usize = 0;
    while k < 16
        invariant
            0 <= k <= 16,
            digits@.len() == 64,
            out@ == prefix + digits@.take(k as int),
        decreases 16 - k,
    {
        out.push(digits[k]);
        assert(out@ =~= prefix + digits@.take(k + 1));
        k = k + 1;
    }
    string_from_chars(out.as_slice())
}

/// One answer of the production resource path resolver: how it bound the
/// external resource record with this origin and entity id.
#[derive(Debug)]
pub struct ResourceBindingRecord {
    pub container_origin: usize,
    pub external_resource_entity_id: u32,
    pub exact: bool,
    pub diagnostic_code: Option<String>,
}

/// What the production resource path resolver made of a file-set: the
/// normalized location of each fragment (by position), its bindings, and
/// its totals.
#[derive(Debug)]
pub struct ResourceResolution {
    pub normalized_locations: Vec<Option<String>>,
    pub bindings: Vec<ResourceBindingRecord>,
    pub resolved_records: usize,
    pub unresolved_records: usize,
    pub unresolved_visible_placement_positions: usize,
}

/// The audit of a file-set's resource identity.
#[derive(Debug)]
pub struct KfxResourceAudit {
    pub schema_version: u32,
    pub source_id: String,
    pub parser_version: String,
    pub containers: Vec<KfxAuditContainer>,
    pub external_resources: Vec<KfxAuditExternalResource>,
    pub raw_media: Vec<KfxAuditRawMedia>,
    pub composite_fragments: Vec<KfxAuditCompositeFragment>,
    pub summary: KfxAuditSummary,
}

pub const EXTERNAL_RESOURCE_FRAGMENT_TYPE: u32 = 164;

/// The positions of the external resource records (`$164`) among the
/// fragments.
pub open spec fn external_positions(fs: Seq<FragmentView>) -> Seq<usize>
    decreases fs.len(),
{
    if fs.len() == 0 {
        Seq::empty()
    } else {
        let prev = external_positions(fs.drop_last());
        if fs.last().fragment_type == EXTERNAL_RESOURCE_FRAGMENT_TYPE {
            prev.push((fs.len() - 1) as usize)
        } else {
            prev
        }
    }
}

pub proof fn lemma_external_positions(fs: Seq<FragmentView>)
    requires
        fs.len() <= usize::MAX,
    ensures
        forall|k: int| 0 <= k < external_positions(fs).len() ==> (#[trigger] external_positions(fs)[k]) < fs.len()
            && fs[external_positions(fs)[k] as int].fragment_type == EXTERNAL_RESOURCE_FRAGMENT_TYPE,
    decreases fs.len(),
{
    if fs.len() > 0 {
        let prev = external_positions(fs.drop_last());
        lemma_external_positions(fs.drop_last());
        assert forall|k: int| 0 <= k < external_positions(fs).len() implies (#[trigger] external_positions(fs)[k]) < fs.len()
            && fs[external_positions(fs)[k] as int].fragment_type == EXTERNAL_RESOURCE_FRAGMENT_TYPE by {
            if k < prev.len() {
                assert(external_positions(fs)[k] == prev[k]);
                assert(prev[k] < fs.drop_last().len());
                assert(fs.drop_last()[prev[k] as int] == fs[prev[k] as int]);
            } else {
                assert(fs.last().fragment_type == EXTERNAL_RESOURCE_FRAGMENT_TYPE);
                assert(k == prev.len());
                assert(external_positions(fs)[k] == fs.len() - 1);
            }
        }
    }
}

pub open spec fn position_keys(cs: Seq<ContainerOwnedView>, fs: Seq<FragmentView>, ps: Seq<usize>) -> Seq<AuditKeyView> {
    ps.map_values(|p: usize| fragment_key_spec(cs, fs[p as int]))
}

/// The first binding for the record with this origin and entity id.
pub open spec fn first_binding(bs: Seq<ResourceBindingRecord>, origin: usize, entity: u32) -> Option<ResourceBindingRecord>
    decreases bs.len(),
{
    if bs.len() == 0 {
        None
    } else {
        match first_binding(bs.drop_last(), origin, entity) {
            Some(b) => Some(b),
            None => if bs.last().container_origin == origin && bs.last().external_resource_entity_id == entity {
                Some(bs.last())
            } else {
                None
            },
        }
    }
}

pub open spec fn binding_view(b: Option<ResourceBindingRecord>) -> ProductionBindingView {
    match b {
        Some(x) => ProductionBindingView { exact: x.exact, diagnostic_code: opt_string_view(x.diagnostic_code) },
        None => ProductionBindingView { exact: false, diagnostic_code: None },
    }
}

pub open spec fn normalized_at(ns: Seq<Option<String>>, p: usize) -> Option<Seq<char>> {
    if p < ns.len() { opt_string_view(ns[p as int]) } else { None }
}

/// `ext` holds the records of the external resources, in audit order,
/// built over the raw media `raw` and the resolver's answers.
pub open spec fn external_list_ok(
    ext: Seq<KfxAuditExternalResource>,
    m: NativeModelView,
    raw: Seq<KfxAuditRawMedia>,
    resolution: ResourceResolution,
) -> bool {
    let ps = external_positions(m.fragments);
    let counts = (
        references_spec(m.containers, m.fragments, true),
        placements_spec(m.containers, m.fragments, true),
        references_spec(m.containers, m.fragments, false),
        placements_spec(m.containers, m.fragments, false),
    );
    exists|ord: Seq<usize>| {
        &&& #[trigger] stable_order(position_keys(m.containers, m.fragments, ps), ord)
        &&& ext.len() == ps.len()
        &&& forall|a: int| 0 <= a < ext.len() ==> {
            let p = ps[ord[a] as int];
            let f = m.fragments[p as int];
            external_ok(#[trigger] ext[a], m.containers, m.resources, f, raw, counts,
                normalized_at(resolution.normalized_locations@, p),
                binding_view(first_binding(resolution.bindings@, f.container_index, f.entity_id)))
        }
    }
}

fn find_binding(bs: &Vec<ResourceBindingRecord>, origin: usize, entity: u32) -> (r: Option<&ResourceBindingRecord>)
    ensures
        match first_binding(bs@, origin, entity) {
            Some(b) => r matches Some(x) && *x == b,
            None => r is None,
        },
{
    let mut i: usize = 0;
    while i < bs.len()
        invariant
            0 <= i <= bs@.len(),
            first_binding(bs@.take(i as int), origin, entity) is None,
        decreases bs@.len() - i,
    {
        proof {
            assert(bs@.take(i + 1).drop_last() =~= bs@.take(i as int));
        }
        if bs[i].container_origin == origin && bs[i].external_resource_entity_id == entity {
            proof {
                lemma_first_binding_prefix(bs@, i as int + 1, origin, entity);
            }
            return Some(&bs[i]);
        }
        i = i + 1;
    }
    assert(bs@.take(i as int) =~= bs@);
    None
}

proof fn lemma_first_binding_prefix(bs: Seq<ResourceBindingRecord>, k: int, origin: usize, entity: u32)
    requires
        0 <= k <= bs.len(),
        first_binding(bs.take(k), origin, entity) is Some,
    ensures
        first_binding(bs, origin, entity) == first_binding(bs.take(k), origin, entity),
    decreases bs.len() - k,
{
    if k < bs.len() {
        assert(bs.take(k + 1).drop_last() =~= bs.take(k));
        lemma_first_binding_prefix(bs, k + 1, origin, entity);
    } else {
        assert(bs.take(k) =~= bs);
    }
}

/// Whether the four sums of the summary fit `usize`.
pub fn summary_sums_fit(external: &Vec<KfxAuditExternalResource>) -> (r: bool)
    ensures
        r == sums_fit(external@),
{
    let ghost s = external@;
    let mut refs: usize = 0;
    let mut places: usize = 0;
    let mut std_refs: usize = 0;
    let mut std_places: usize = 0;
    let mut i: usize = 0;
    while i < external.len()
        invariant
            0 <= i <= s.len(),
            s == external@,
            refs == sum_where(s.take(i as int), p_unresolved(), v_references()),
            places == sum_where(s.take(i as int), p_unresolved(), v_placements()),
            std_refs == sum_where(s.take(i as int), p_every(), v_standard_references()),
            std_places == sum_where(s.take(i as int), p_every(), v_standard_placements()),
        decreases s.len() - i,
    {
        let ghost t = s.take(i + 1);
        proof {
            assert(t.drop_last() =~= s.take(i as int));
            assert(t.last() == s[i as int]);
            lemma_sum_prefix(s, i + 1, p_unresolved(), v_references());
            lemma_sum_prefix(s, i + 1, p_unresolved(), v_placements());
            lemma_sum_prefix(s, i + 1, p_every(), v_standard_references());
            lemma_sum_prefix(s, i + 1, p_every(), v_standard_placements());
        }
        let rec = &external[i];
        if !str_eq(rec.identity_status.as_str(), "ResolvedByExactIdentity") {
            if refs > usize::MAX - rec.reference_count || places > usize::MAX - rec.visible_placement_count {
                return false;
            }
            refs = refs + rec.reference_count;
            places = places + rec.visible_placement_count;
        }
        if std_refs > usize::MAX - rec.reference_count_standard_ion_audit_only
            || std_places > usize::MAX - rec.visible_placement_count_standard_ion_audit_only {
            return false;
        }
        std_refs = std_refs + rec.reference_count_standard_ion_audit_only;
        std_places = std_places + rec.visible_placement_count_standard_ion_audit_only;
        i = i + 1;
    }
    assert(s.take(i as int) =~= s);
    true
}

pub open spec fn containers_ok(r: Seq<KfxAuditContainer>, cs: Seq<ContainerOwnedView>) -> bool {
    &&& r.len() == cs.len()
    &&& forall|i: int| 0 <= i < r.len() ==> (#[trigger] r[i])@ == audit_container_spec(cs, i)
}

/// The audit of file-set `inputs`, read as `m`, given the resolver's
/// answers.
pub open spec fn resource_audit_ok(a: KfxResourceAudit, inputs: Seq<Seq<u8>>, m: NativeModelView, resolution: ResourceResolution) -> bool {
    &&& a.schema_version == 1
    &&& a.source_id@ == source_id_spec(inputs)
    &&& a.parser_version@ == "folioforge-kfx-cont/0.4-resource-audit"@
    &&& containers_ok(a.containers@, m.containers)
    &&& raw_list_ok(a.raw_media@, m.containers, m.resources)
    &&& composite_list_ok(a.composite_fragments@, m.containers, m.fragments)
    &&& external_list_ok(a.external_resources@, m, a.raw_media@, resolution)
    &&& summary_ok(a.summary, a.external_resources@, a.raw_media@.len() as usize, a.composite_fragments@.len() as usize,
        (resolution.resolved_records, resolution.unresolved_records, resolution.unresolved_visible_placement_positions))
}

/// The message of the error returned when a total of the summary does not
/// fit `usize`.
pub open spec fn totals_overflow_message() -> Seq<char> {
    "resource audit totals exceed the platform word"@
}

fn external_records(
    model: &NativeModel,
    raw_media: &Vec<KfxAuditRawMedia>,
    resolution: &ResourceResolution,
) -> (r: Vec<KfxAuditExternalResource>)
    ensures
        external_list_ok(r@, model@, raw_media@, *resolution),
{
    let ghost m = model@;
    let ghost cs = m.containers;
    let ghost fs = m.fragments;
    let n = model.fragments.len();
    proof {
        assert(container_views(model.containers@) == cs);
        assert(fragment_views(model.fragments@) == fs);
        assert(fs.len() == n);
        lemma_external_positions(fs);
    }
    let references = count_resource_references(model);
    let placements = count_observed_resource_placements(model);
    let standard_ion_references = count_resource_references_standard_ion(model);
    let standard_ion_placements = count_observed_resource_placements_standard_ion(model);
    let mut positions: Vec<usize> = Vec::new();
    let mut keys: Vec<KfxAuditFragmentKey> = Vec::new();
    let mut i: usize = 0;
    while i < model.fragments.len()
        invariant
            0 <= i <= model.fragments@.len(),
            m == model@,
            cs == m.containers,
            fs == m.fragments,
            fs.len() == model.fragments@.len(),
            cs == container_views(model.containers@),
            positions@ == external_positions(fs.take(i as int)),
            key_views(keys@) == position_keys(cs, fs, positions@),
            forall|k: int| 0 <= k < positions@.len() ==> #[trigger] positions@[k] < i,
        decreases model.fragments@.len() - i,
    {
        proof {
            assert(fs.take(i + 1).drop_last() =~= fs.take(i as int));
            assert(fs[i as int] == model.fragments@[i as int]@);
        }
        let f = &model.fragments[i];
        if f.fragment_type == EXTERNAL_RESOURCE_FRAGMENT_TYPE {
            let ghost before_keys = keys@;
            let ghost before_pos = positions@;
            positions.push(i);
            keys.push(fragment_key(&model.containers, f));
            proof {
                assert(key_views(keys@) =~= key_views(before_keys).push(fragment_key_spec(cs, fs[i as int])));
                assert(position_keys(cs, fs, positions@) =~= position_keys(cs, fs, before_pos).push(fragment_key_spec(cs, fs[i as int])));
            }
        }
        i = i + 1;
    }
    assert(fs.take(i as int) =~= fs);
    let ghost ps = positions@;
    let order = audit_order(&keys);
    let ghost counts = (references.counts(), placements.counts(), standard_ion_references.counts(), standard_ion_placements.counts());
    let mut out: Vec<KfxAuditExternalResource> = Vec::new();
    let mut a: usize = 0;
    while a < order.len()
        invariant
            0 <= a <= order@.len(),
            m == model@,
            cs == m.containers,
            fs == m.fragments,
            ps == positions@,
            ps == external_positions(fs),
            forall|k: int| 0 <= k < ps.len() ==> (#[trigger] ps[k]) < fs.len(),
            fs.len() == model.fragments@.len(),
            stable_order(key_views(keys@), order@),
            key_views(keys@) == position_keys(cs, fs, ps),
            references.wf(),
            placements.wf(),
            standard_ion_references.wf(),
            standard_ion_placements.wf(),
            counts == (references.counts(), placements.counts(), standard_ion_references.counts(), standard_ion_placements.counts()),
            counts == (
                references_spec(cs, fs, true),
                placements_spec(cs, fs, true),
                references_spec(cs, fs, false),
                placements_spec(cs, fs, false),
            ),
            out@.len() == a,
            forall|x: int| 0 <= x < a ==> {
                let p = ps[order@[x] as int];
                let f = fs[p as int];
                external_ok(#[trigger] out@[x], cs, m.resources, f, raw_media@, counts,
                    normalized_at(resolution.normalized_locations@, p),
                    binding_view(first_binding(resolution.bindings@, f.container_index, f.entity_id)))
            },
        decreases order@.len() - a,
    {
        let idx = order[a];
        assert(key_views(keys@).len() == keys@.len());
        let p = positions[idx];
        let f = &model.fragments[p];
        assert(fs[p as int] == f@);
        let normalized = if p < resolution.normalized_locations.len() {
            copy_opt_string(&resolution.normalized_locations[p])
        } else {
            None
        };
        let (exact, code) = match find_binding(&resolution.bindings, f.container_index, f.entity_id) {
            Some(b) => (b.exact, copy_opt_string(&b.diagnostic_code)),
            None => (false, None),
        };
        let rec = audit_external_resource(
            model,
            f,
            raw_media,
            &references,
            &placements,
            &standard_ion_references,
            &standard_ion_placements,
            normalized,
            exact,
            code,
        );
        out.push(rec);
        a = a + 1;
    }
    assert(stable_order(position_keys(cs, fs, ps), order@));
    out
}

/// What the resource audit of a file-set may return: the parse error, the
/// audit, or the totals error when a summary total does not fit `usize`.
pub open spec fn file_set_audit_ok(inputs: Seq<Seq<u8>>, resolution: ResourceResolution, r: Result<KfxResourceAudit, AmazonKfxError>) -> bool {
    match native_spec(inputs, ParseMode::Compatible) {
        Err(e) => r matches Err(x) && x@ == e,
        Ok(m) => match r {
            Ok(a) => resource_audit_ok(a, inputs, m, resolution),
            Err(x) => x@ == KfxErrorView::Semantic(totals_overflow_message())
                && exists|raw: Seq<KfxAuditRawMedia>, ext: Seq<KfxAuditExternalResource>|
                    #[trigger] raw_list_ok(raw, m.containers, m.resources)
                    && #[trigger] external_list_ok(ext, m, raw, resolution) && !sums_fit(ext),
        },
    }
}

/// What the resource audit of one input may return: its parse error, its
/// audit (with the input's source id), or the totals error.
pub open spec fn single_input_audit_ok(bytes: Seq<u8>, resolution: ResourceResolution, r: Result<KfxResourceAudit, AmazonKfxError>) -> bool {
    match native_spec(seq![bytes], ParseMode::Compatible) {
        Err(e) => r matches Err(x) && x@ == e,
        Ok(m) => match r {
            Ok(a) => resource_audit_ok(a, seq![bytes], m, resolution),
            Err(x) => x@ == KfxErrorView::Semantic(totals_overflow_message())
                && exists|raw: Seq<KfxAuditRawMedia>, ext: Seq<KfxAuditExternalResource>|
                    #[trigger] raw_list_ok(raw, m.containers, m.resources)
                    && #[trigger] external_list_ok(ext, m, raw, resolution) && !sums_fit(ext),
        },
    }
}

/// The audit of one input is the audit of the file-set holding just that
/// input: exactly the same results are allowed for both, error or audit.
pub proof fn lemma_single_input_is_one_input_file_set(
    bytes: Seq<u8>,
    resolution: ResourceResolution,
    r: Result<KfxResourceAudit, AmazonKfxError>,
)
    ensures
        single_input_audit_ok(bytes, resolution, r) <==> file_set_audit_ok(seq![bytes], resolution, r),
{
}

/// The resource identity audit of a file-set, given what the production
/// resource path resolver made of it. Fails as reading the file-set fails,
/// or when a total of the summary does not fit `usize`.
pub fn audit_resources_file_set(inputs: &[&[u8]], resolution: &ResourceResolution) -> (r: Result<KfxResourceAudit, AmazonKfxError>)
    ensures
        file_set_audit_ok(input_views(inputs@), *resolution, r),
{
    let model = match parse_native_sources(inputs, ParseMode::Compatible) {
        Ok(m) => m,
        Err(e) => {
            return Err(e);
        },
    };
    proof {
        assert(container_views(model.containers@) == model@.containers);
        assert(resource_views(model.resources@) == model@.resources);
        assert(fragment_views(model.fragments@) == model@.fragments);
    }
    let raw_media = audit_raw_media(&model.containers, &model.resources);
    let external = external_records(&model, &raw_media, resolution);
    if !summary_sums_fit(&external) {
        return Err(AmazonKfxError::Semantic(owned("resource audit totals exceed the platform word")));
    }
    let composite = audit_composite_fragments(&model.containers, &model.fragments);
    let summary = audit_summary(
        &external,
        raw_media.len(),
        composite.len(),
        resolution.resolved_records,
        resolution.unresolved_records,
        resolution.unresolved_visible_placement_positions,
    );
    let containers = audit_containers(&model.containers);
    Ok(KfxResourceAudit {
        schema_version: 1,
        source_id: resource_audit_source_id(inputs),
        parser_version: owned("folioforge-kfx-cont/0.4-resource-audit"),
        containers,
        external_resources: external,
        raw_media,
        composite_fragments: composite,
        summary,
    })
}

/// The resource identity audit of one input.
pub fn audit_resources(bytes: &[u8], resolution: &ResourceResolution) -> (r: Result<KfxResourceAudit, AmazonKfxError>)
    ensures
        single_input_audit_ok(bytes@, *resolution, r),
{
    let inputs: [&[u8]; 1] = [bytes];
    proof {
        assert(input_views(inputs@) =~= seq![bytes@]);
    }
    audit_resources_file_set(&inputs, resolution)
}

proof fn lemma_count_split(s: Seq<KfxAuditExternalResource>)
    ensures
        count_where(s, p_resolved()) + count_where(s, p_unresolved()) == s.len(),
    decreases s.len(),
{
    if s.len() > 0 {
        lemma_count_split(s.drop_last());
    }
}

/// Every external resource record is either resolved by exact identity or
/// unresolved: the two totals of the summary add up to the records.
pub proof fn lemma_summary_partition(
    r: KfxAuditSummary,
    s: Seq<KfxAuditExternalResource>,
    raw_media_count: usize,
    composite_fragments_unknown: usize,
    production: (usize, usize, usize),
)
    requires
        summary_ok(r, s, raw_media_count, composite_fragments_unknown, production),
    ensures
        r.exact_identity_resolved + r.unresolved == r.external_resource_count,
{
    lemma_count_split(s);
}

/// Digests are audit-only: which raw media are candidates for a location
/// depends on their keys and names alone, never on their digests or bytes.
pub proof fn lemma_candidates_ignore_digests(
    a: Seq<KfxAuditRawMedia>,
    b: Seq<KfxAuditRawMedia>,
    location: Option<Seq<char>>,
    legacy: bool,
)
    requires
        a.len() == b.len(),
        forall|i: int| 0 <= i < a.len() ==> (#[trigger] a[i]).fragment_key@ == b[i].fragment_key@
            && opt_string_view(a[i].symbol_name) == opt_string_view(b[i].symbol_name)
            && opt_string_view(a[i].symbol_name_legacy_unadjusted_audit_only) == opt_string_view(b[i].symbol_name_legacy_unadjusted_audit_only),
    ensures
        candidate_keys(a, location, legacy) == candidate_keys(b, location, legacy),
    decreases a.len(),
{
    if a.len() > 0 {
        assert(a.last() == a[a.len() - 1]);
        lemma_candidates_ignore_digests(a.drop_last(), b.drop_last(), location, legacy);
    }
}

} // verus!
