//! The image references of the content fragments, read straight from the
//! source values: each `$159` record of the placement symbol, with the
//! resource name its `$175` field resolves to and how it resolved.
use vstd::prelude::*;
use crate::ion::{IonModel, IonValue, field_models, models, lemma_field_models_index, lemma_models_index};
use crate::value::{field_of, int_field, symbol_field, struct_get, int_field_of, symbol_field_of, opt_model};
use crate::native::{NativeModel, NativeModelView, NativeContainerOwned, ContainerOwnedView, FragmentView, fragment_views, container_views};
use crate::symbols::{count_some_max, import_symbol_id_shift};
use crate::resource_audit::{whitespace_symbol_spec, observed_whitespace_resource_record_symbol_for_imports_content};
use crate::content::{FIELD_CONTENT_NODE_TYPE, FIELD_CONTENT_ORACLE_RESOURCE_SYMBOL};
use crate::nav::{to_u32, FIELD_NAV_TARGET_ID};
use crate::placement::{RawImageReference, first_value, lookup};
use crate::decode::opt_string_view;
use crate::text::owned;

verus! {

/// The mathematical form of a [`RawImageReference`].
pub struct RawRefView {
    pub name: Option<Seq<char>>,
    pub alternates: Seq<Seq<char>>,
    pub position: Option<u32>,
    pub category: Seq<char>,
}

pub open spec fn raw_ref_view(r: RawImageReference) -> RawRefView {
    RawRefView {
        name: opt_string_view(r.resource_name),
        alternates: r.alternate_names_audit_only@.map_values(|s: String| s@),
        position: r.position_target_id,
        category: r.resolution_category@,
    }
}

pub open spec fn raw_ref_views(s: Seq<RawImageReference>) -> Seq<RawRefView> {
    s.map_values(|r: RawImageReference| raw_ref_view(r))
}

/// What the walk of one fragment reads beside the value: the container's
/// symbol names, the import shift of its content ids, the placement record
/// symbol, the names with an identity (name, status), the normalized
/// location of each raw value, and the name found at each location.
pub struct RawRefScope {
    pub names: Map<u64, Seq<char>>,
    pub shift: Option<u64>,
    pub record_symbol: u64,
    pub identities: Seq<(String, String)>,
    pub locations: Seq<(String, String)>,
    pub names_by_location: Seq<(String, String)>,
}

pub open spec fn exact_fid() -> Seq<char> {
    "symbol_ion_sid_exact_fid"@
}

pub open spec fn location_bridge() -> Seq<char> {
    "symbol_ion_sid_exact_location_bridge"@
}

pub open spec fn without_identity() -> Seq<char> {
    "symbol_ion_sid_name_without_exact_identity"@
}

/// The resource name a raw value names, and how: a name with an identity
/// names itself; otherwise the name found at its normalized location.
pub open spec fn resolve_name_spec(
    value: Option<Seq<char>>,
    identities: Seq<(String, String)>,
    locations: Seq<(String, String)>,
    names_by_location: Seq<(String, String)>,
) -> (Option<Seq<char>>, Seq<char>) {
    match value {
        None => (None, "symbol_ion_sid_not_in_container_scope"@),
        Some(v) => if first_value(identities, v) is Some {
            (Some(v), exact_fid())
        } else {
            match first_value(locations, v) {
                Some(path) => match first_value(names_by_location, path) {
                    Some(n) => (Some(n), location_bridge()),
                    None => (None, without_identity()),
                },
                None => (None, without_identity()),
            }
        },
    }
}

pub open spec fn name_at(names: Map<u64, Seq<char>>, id: u64) -> Option<Seq<char>> {
    if names.contains_key(id) { Some(names[id]) } else { None }
}

/// The names of a symbol reference: the name of the symbol itself, and,
/// for the audit only, the name of the id shifted down by the imports.
pub open spec fn from_symbol_spec(
    sym: u64,
    names: Map<u64, Seq<char>>,
    shift: Option<u64>,
    identities: Seq<(String, String)>,
    locations: Seq<(String, String)>,
    names_by_location: Seq<(String, String)>,
) -> (Option<Seq<char>>, Seq<Seq<char>>, Seq<char>) {
    let (name, category) = resolve_name_spec(name_at(names, sym), identities, locations, names_by_location);
    let alternate = match shift {
        Some(k) => if k <= sym { name_at(names, (sym - k) as u64) } else { None },
        None => None,
    };
    let alternates = match resolve_name_spec(alternate, identities, locations, names_by_location).0 {
        Some(a) => seq![a],
        None => Seq::empty(),
    };
    (name, alternates, category)
}

/// The names of a string reference, with the string categories.
pub open spec fn from_string_spec(
    v: Seq<char>,
    identities: Seq<(String, String)>,
    locations: Seq<(String, String)>,
    names_by_location: Seq<(String, String)>,
) -> (Option<Seq<char>>, Seq<Seq<char>>, Seq<char>) {
    let (name, c) = resolve_name_spec(Some(v), identities, locations, names_by_location);
    let category = if c == exact_fid() {
        "string_exact_fid"@
    } else if c == location_bridge() {
        "string_exact_location_bridge"@
    } else {
        "string_without_exact_identity"@
    };
    (name, Seq::empty(), category)
}

/// The reference a placement record makes at `position`.
pub open spec fn record_spec(m: IonModel, s: RawRefScope, position: Option<u32>) -> RawRefView {
    let (name, alternates, category) = match field_of(m, FIELD_CONTENT_ORACLE_RESOURCE_SYMBOL) {
        Some(IonModel::Symbol(sym)) => from_symbol_spec(sym, s.names, s.shift, s.identities, s.locations, s.names_by_location),
        Some(IonModel::String(v)) => from_string_spec(v, s.identities, s.locations, s.names_by_location),
        None => (None, Seq::empty(), "field_175_missing"@),
        Some(_) => (None, Seq::empty(), "field_175_unsupported_value_type"@),
    };
    RawRefView { name, alternates, position, category }
}

/// The position of a struct: its own `$155`, else the one inherited.
pub open spec fn position_spec(m: IonModel, inherited: Option<u32>) -> Option<u32> {
    match to_u32(int_field(m, FIELD_NAV_TARGET_ID)) {
        Some(p) => Some(p),
        None => inherited,
    }
}

/// The references under `m` appended to `out`, in document order: a
/// record before what it holds.
pub open spec fn raw_walk(out: Seq<RawRefView>, m: IonModel, s: RawRefScope, inherited: Option<u32>) -> Seq<RawRefView>
    decreases m,
{
    match m {
        IonModel::Struct(fields) => {
            let position = position_spec(m, inherited);
            let out1 = if symbol_field(m, FIELD_CONTENT_NODE_TYPE) == Some(s.record_symbol) {
                out.push(record_spec(m, s, position))
            } else {
                out
            };
            raw_walk_fields(out1, fields, s, position)
        },
        IonModel::List(items) => raw_walk_items(out, items, s, inherited),
        IonModel::SExp(items) => raw_walk_items(out, items, s, inherited),
        IonModel::Annotation { value, .. } => raw_walk(out, *value, s, inherited),
        _ => out,
    }
}

pub open spec fn raw_walk_items(out: Seq<RawRefView>, items: Seq<IonModel>, s: RawRefScope, inherited: Option<u32>) -> Seq<RawRefView>
    decreases items,
{
    if items.len() == 0 {
        out
    } else {
        raw_walk(raw_walk_items(out, items.drop_last(), s, inherited), items.last(), s, inherited)
    }
}

pub open spec fn raw_walk_fields(out: Seq<RawRefView>, fields: Seq<(u64, IonModel)>, s: RawRefScope, inherited: Option<u32>) -> Seq<RawRefView>
    decreases fields,
{
    if fields.len() == 0 {
        out
    } else {
        proof {
            assert(decreases_to!(fields => fields[fields.len() - 1].1));
        }
        raw_walk(raw_walk_fields(out, fields.drop_last(), s, inherited), fields.last().1, s, inherited)
    }
}

/// Nine system symbols for each import with a `max_id`, when that fits.
pub open spec fn shift_spec(c: ContainerOwnedView) -> Option<u64> {
    let k = 9 * count_some_max(c.symbols.imports);
    if k <= u64::MAX { Some(k as u64) } else { None }
}

pub open spec fn scope_of(
    c: ContainerOwnedView,
    record_symbol: u64,
    identities: Seq<(String, String)>,
    locations: Seq<(String, String)>,
    names_by_location: Seq<(String, String)>,
) -> RawRefScope {
    RawRefScope { names: c.symbols.names, shift: shift_spec(c), record_symbol, identities, locations, names_by_location }
}

/// The scope of a fragment: only when its container exists and names the
/// placement record symbol.
pub open spec fn fragment_scope(
    cs: Seq<ContainerOwnedView>,
    f: FragmentView,
    identities: Seq<(String, String)>,
    locations: Seq<(String, String)>,
    names_by_location: Seq<(String, String)>,
) -> Option<RawRefScope> {
    if f.container_index < cs.len() {
        let c = cs[f.container_index as int];
        match whitespace_symbol_spec(c.symbols.imports, false) {
            Some(sym) => Some(scope_of(c, sym, identities, locations, names_by_location)),
            None => None,
        }
    } else {
        None
    }
}

/// The references of the content fragments (`$259`) among `fs`, in order.
pub open spec fn raw_refs_spec(
    cs: Seq<ContainerOwnedView>,
    fs: Seq<FragmentView>,
    identities: Seq<(String, String)>,
    locations: Seq<(String, String)>,
    names_by_location: Seq<(String, String)>,
) -> Seq<RawRefView>
    decreases fs.len(),
{
    if fs.len() == 0 {
        Seq::empty()
    } else {
        let prev = raw_refs_spec(cs, fs.drop_last(), identities, locations, names_by_location);
        let f = fs.last();
        if f.fragment_type == 259 {
            match fragment_scope(cs, f, identities, locations, names_by_location) {
                Some(s) => raw_walk(prev, f.value, s, None),
                None => prev,
            }
        } else {
            prev
        }
    }
}

fn resolve_name(
    value: Option<&str>,
    identities: &Vec<(String, String)>,
    locations: &Vec<(String, String)>,
    names_by_location: &Vec<(String, String)>,
) -> (r: (Option<String>, String))
    ensures
        (opt_string_view(r.0), r.1@) == resolve_name_spec(
            match value { Some(v) => Some(v@), None => None },
            identities@,
            locations@,
            names_by_location@,
        ),
{
    let v = match value {
        Some(v) => v,
        None => return (None, owned("symbol_ion_sid_not_in_container_scope")),
    };
    if lookup(identities, v).is_some() {
        return (Some(owned(v)), owned("symbol_ion_sid_exact_fid"));
    }
    match lookup(locations, v) {
        Some(path) => match lookup(names_by_location, path.as_str()) {
            Some(n) => (Some(n), owned("symbol_ion_sid_exact_location_bridge")),
            None => (None, owned("symbol_ion_sid_name_without_exact_identity")),
        },
        None => (None, owned("symbol_ion_sid_name_without_exact_identity")),
    }
}

fn name_of<'a>(container: &'a NativeContainerOwned, id: u64) -> (r: Option<&'a str>)
    ensures
        (match r { Some(v) => Some(v@), None => None }) == name_at(container@.symbols.names, id),
{
    match container.symbols.names.get(&id) {
        Some(n) => Some(n.as_str()),
        None => None,
    }
}

fn from_symbol(
    container: &NativeContainerOwned,
    shift: Option<u64>,
    sym: u64,
    identities: &Vec<(String, String)>,
    locations: &Vec<(String, String)>,
    names_by_location: &Vec<(String, String)>,
) -> (r: (Option<String>, Vec<String>, String))
    requires
        shift == shift_spec(container@),
    ensures
        (opt_string_view(r.0), r.1@.map_values(|x: String| x@), r.2@)
            == from_symbol_spec(sym, container@.symbols.names, shift, identities@, locations@, names_by_location@),
{
    let (name, category) = resolve_name(name_of(container, sym), identities, locations, names_by_location);
    let alternate = match shift {
        Some(k) => if k <= sym { name_of(container, sym - k) } else { None },
        None => None,
    };
    let (alt, _) = resolve_name(alternate, identities, locations, names_by_location);
    let mut alternates: Vec<String> = Vec::new();
    match alt {
        Some(a) => {
            alternates.push(a);
        },
        None => {},
    }
    proof {
        assert(alternates@.map_values(|x: String| x@) =~= (match opt_string_view(alt) {
            Some(a) => seq![a],
            None => Seq::<Seq<char>>::empty(),
        }));
    }
    (name, alternates, category)
}

fn from_string(
    v: &str,
    identities: &Vec<(String, String)>,
    locations: &Vec<(String, String)>,
    names_by_location: &Vec<(String, String)>,
) -> (r: (Option<String>, String))
    ensures
        opt_string_view(r.0) == from_string_spec(v@, identities@, locations@, names_by_location@).0,
        r.1@ == from_string_spec(v@, identities@, locations@, names_by_location@).2,
{
    let (name, c) = resolve_name(Some(v), identities, locations, names_by_location);
    proof {
        reveal_strlit("symbol_ion_sid_exact_fid");
        reveal_strlit("symbol_ion_sid_exact_location_bridge");
        reveal_strlit("symbol_ion_sid_name_without_exact_identity");
        reveal_strlit("symbol_ion_sid_not_in_container_scope");
    }
    let category = if crate::text::str_eq(c.as_str(), "symbol_ion_sid_exact_fid") {
        owned("string_exact_fid")
    } else if crate::text::str_eq(c.as_str(), "symbol_ion_sid_exact_location_bridge") {
        owned("string_exact_location_bridge")
    } else {
        owned("string_without_exact_identity")
    };
    (name, category)
}

fn visit_raw(
    value: &IonValue,
    container: &NativeContainerOwned,
    shift: Option<u64>,
    record_symbol: u64,
    identities: &Vec<(String, String)>,
    locations: &Vec<(String, String)>,
    names_by_location: &Vec<(String, String)>,
    inherited: Option<u32>,
    output: &mut Vec<RawImageReference>,
)
    requires
        shift == shift_spec(container@),
    ensures
        raw_ref_views(final(output)@) == raw_walk(
            raw_ref_views(old(output)@),
            value@,
            scope_of(container@, record_symbol, identities@, locations@, names_by_location@),
            inherited,
        ),
    decreases value,
{
    let ghost s = scope_of(container@, record_symbol, identities@, locations@, names_by_location@);
    let ghost before = output@;
    match value {
        IonValue::Struct(fields) => {
            let position = match int_field_of(value, FIELD_NAV_TARGET_ID) {
                Some(i) => if 0 <= i && i <= 0xffff_ffff {
                    Some(i as u32)
                } else {
                    inherited
                },
                None => inherited,
            };
            assert(position == position_spec(value@, inherited));
            let is_record = match symbol_field_of(value, FIELD_CONTENT_NODE_TYPE) {
                Some(k) => k == record_symbol,
                None => false,
            };
            if is_record {
                let (resource_name, alternates, category) = match struct_get(value, FIELD_CONTENT_ORACLE_RESOURCE_SYMBOL) {
                    Some(IonValue::Symbol(sym)) => from_symbol(container, shift, *sym, identities, locations, names_by_location),
                    Some(IonValue::String(v)) => {
                        let (n, c) = from_string(v.as_str(), identities, locations, names_by_location);
                        let empty: Vec<String> = Vec::new();
                        proof {
                            assert(empty@.map_values(|x: String| x@) =~= Seq::<Seq<char>>::empty());
                        }
                        (n, empty, c)
                    },
                    None => {
                        let empty: Vec<String> = Vec::new();
                        proof {
                            assert(empty@.map_values(|x: String| x@) =~= Seq::<Seq<char>>::empty());
                        }
                        (None, empty, owned("field_175_missing"))
                    },
                    Some(_) => {
                        let empty: Vec<String> = Vec::new();
                        proof {
                            assert(empty@.map_values(|x: String| x@) =~= Seq::<Seq<char>>::empty());
                        }
                        (None, empty, owned("field_175_unsupported_value_type"))
                    },
                };
                let reference = RawImageReference {
                    resource_name,
                    alternate_names_audit_only: alternates,
                    position_target_id: position,
                    resolution_category: category,
                };
                assert(raw_ref_view(reference) == record_spec(value@, s, position));
                output.push(reference);
                assert(raw_ref_views(output@) =~= raw_ref_views(before).push(record_spec(value@, s, position)));
            }
            visit_raw_fields(fields, container, shift, record_symbol, identities, locations, names_by_location, position, output);
        },
        IonValue::List(items) => visit_raw_items(items, container, shift, record_symbol, identities, locations, names_by_location, inherited, output),
        IonValue::SExp(items) => visit_raw_items(items, container, shift, record_symbol, identities, locations, names_by_location, inherited, output),
        IonValue::Annotation { value: inner, .. } => visit_raw(inner, container, shift, record_symbol, identities, locations, names_by_location, inherited, output),
        _ => {},
    }
}

fn visit_raw_items(
    items: &Vec<IonValue>,
    container: &NativeContainerOwned,
    shift: Option<u64>,
    record_symbol: u64,
    identities: &Vec<(String, String)>,
    locations: &Vec<(String, String)>,
    names_by_location: &Vec<(String, String)>,
    inherited: Option<u32>,
    output: &mut Vec<RawImageReference>,
)
    requires
        shift == shift_spec(container@),
    ensures
        raw_ref_views(final(output)@) == raw_walk_items(
            raw_ref_views(old(output)@),
            models(items@),
            scope_of(container@, record_symbol, identities@, locations@, names_by_location@),
            inherited,
        ),
    decreases items,
{
    let ghost s = scope_of(container@, record_symbol, identities@, locations@, names_by_location@);
    let ghost ms = models(items@);
    let ghost o0 = raw_ref_views(output@);
    proof {
        lemma_models_index(items@);
    }
    let mut i: usize = 0;
    while i < items.len()
        invariant
            0 <= i <= items@.len(),
            shift == shift_spec(container@),
            s == scope_of(container@, record_symbol, identities@, locations@, names_by_location@),
            ms == models(items@),
            ms.len() == items@.len(),
            forall|k: int| 0 <= k < items@.len() ==> #[trigger] ms[k] == items@[k]@,
            raw_ref_views(output@) == raw_walk_items(o0, ms.subrange(0, i as int), s, inherited),
        decreases items@.len() - i,
    {
        assert(decreases_to!(items => items@[i as int]));
        assert(ms.subrange(0, i + 1).drop_last() =~= ms.subrange(0, i as int));
        visit_raw(&items[i], container, shift, record_symbol, identities, locations, names_by_location, inherited, output);
        i = i + 1;
    }
    assert(ms.subrange(0, ms.len() as int) =~= ms);
}

fn visit_raw_fields(
    fields: &Vec<(u64, IonValue)>,
    container: &NativeContainerOwned,
    shift: Option<u64>,
    record_symbol: u64,
    identities: &Vec<(String, String)>,
    locations: &Vec<(String, String)>,
    names_by_location: &Vec<(String, String)>,
    inherited: Option<u32>,
    output: &mut Vec<RawImageReference>,
)
    requires
        shift == shift_spec(container@),
    ensures
        raw_ref_views(final(output)@) == raw_walk_fields(
            raw_ref_views(old(output)@),
            field_models(fields@),
            scope_of(container@, record_symbol, identities@, locations@, names_by_location@),
            inherited,
        ),
    decreases fields,
{
    let ghost s = scope_of(container@, record_symbol, identities@, locations@, names_by_location@);
    let ghost fs = field_models(fields@);
    let ghost o0 = raw_ref_views(output@);
    proof {
        lemma_field_models_index(fields@);
    }
    let mut i: usize = 0;
    while i < fields.len()
        invariant
            0 <= i <= fields@.len(),
            shift == shift_spec(container@),
            s == scope_of(container@, record_symbol, identities@, locations@, names_by_location@),
            fs == field_models(fields@),
            fs.len() == fields@.len(),
            forall|k: int| 0 <= k < fields@.len() ==> #[trigger] fs[k] == (fields@[k].0, fields@[k].1@),
            raw_ref_views(output@) == raw_walk_fields(o0, fs.subrange(0, i as int), s, inherited),
        decreases fields@.len() - i,
    {
        assert(decreases_to!(fields => fields@[i as int].1));
        assert(fs.subrange(0, i + 1).drop_last() =~= fs.subrange(0, i as int));
        visit_raw(&fields[i].1, container, shift, record_symbol, identities, locations, names_by_location, inherited, output);
        i = i + 1;
    }
    assert(fs.subrange(0, fs.len() as int) =~= fs);
}

/// The image references of the content fragments, in fragment order and,
/// within a fragment, in document order. `identities` holds the resource
/// names with an identity and their status, `locations` the normalized
/// location of each raw name, and `names_by_location` the one resource
/// name at each location.
pub fn collect_raw_image_references(
    model: &NativeModel,
    identities: &Vec<(String, String)>,
    locations: &Vec<(String, String)>,
    names_by_location: &Vec<(String, String)>,
) -> (r: Vec<RawImageReference>)
    ensures
        raw_ref_views(r@) == raw_refs_spec(model@.containers, model@.fragments, identities@, locations@, names_by_location@),
{
    let ghost cs = model@.containers;
    let ghost fs = model@.fragments;
    proof {
        assert(fragment_views(model.fragments@) == fs);
        assert(container_views(model.containers@) == cs);
    }
    let mut output: Vec<RawImageReference> = Vec::new();
    let mut i: usize = 0;
    proof {
        assert(raw_ref_views(output@) =~= Seq::<RawRefView>::empty());
    }
    while i < model.fragments.len()
        invariant
            0 <= i <= model.fragments@.len(),
            cs == model@.containers,
            fs == model@.fragments,
            fs == fragment_views(model.fragments@),
            cs == container_views(model.containers@),
            raw_ref_views(output@) == raw_refs_spec(cs, fs.take(i as int), identities@, locations@, names_by_location@),
        decreases model.fragments@.len() - i,
    {
        let fragment = &model.fragments[i];
        proof {
            assert(fs.take(i + 1).drop_last() =~= fs.take(i as int));
            assert(fs.take(i + 1).last() == fragment@);
        }
        if fragment.fragment_type == 259 && fragment.container_index < model.containers.len() {
            let container = &model.containers[fragment.container_index];
            assert(cs[fragment.container_index as int] == container@);
            match observed_whitespace_resource_record_symbol_for_imports_content(&container.symbols.imports) {
                Some(sym) => {
                    let shift = import_symbol_id_shift(container.symbols.imports.as_slice());
                    visit_raw(&fragment.value, container, shift, sym, identities, locations, names_by_location, None, &mut output);
                },
                None => {},
            }
        }
        i = i + 1;
    }
    assert(fs.take(i as int) =~= fs);
    output
}

} // verus!
