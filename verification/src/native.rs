//! The native model of a KFX file-set: its containers, fragments, raw
//! resources, symbols and the observations made while reading them.
use vstd::prelude::*;
use std::collections::BTreeMap;
use std::collections::BTreeSet;
use crate::ion::{IonModel, IonValue, models, field_models, lemma_models_index};
use crate::strset::StringSet;
use crate::container::{container_spec, parse_container, lemma_container_end_after_header, container_header_spec, ContainerView, EntityView, NativeContainer, NativeEntity, entity_views, int_field_or_zero, int_field_or_zero_of, FIELD_CHUNK_SIZE, FIELD_COMPRESSION, FIELD_DRM_SCHEME};
use crate::media::{media_spec, media_type_for_bytes};
use crate::value::int_field;
use crate::error::{AmazonKfxError, KfxErrorView, ParseMode};
use crate::text::{decimal, decimal_string, join2, owned};
use crate::symbols::{
    ImportView, SymbolTable, SymbolTableImport, SymbolTableView, FIELD_SYMBOL_TABLE_IMPORTS,
    FIELD_SYMBOL_TABLE_IMPORT_MAX_ID, FIELD_SYMBOL_TABLE_IMPORT_NAME,
    FIELD_SYMBOL_TABLE_IMPORT_VERSION, FIELD_SYMBOL_TABLE_MAX_ID, FIELD_SYMBOL_TABLE_SYMBOLS,
    MAX_STRING_ITEMS, import_of, import_views, imports_of, local_start_spec, local_symbol_start,
    name_views, table_imports, u32_field,
};
use crate::value::{
    as_int, as_string, field_of, first_field, int_of, string_of, struct_fields_of, struct_get,
    struct_get_from_fields, unwrap_struct,
};

verus! {

broadcast use vstd::laws_cmp::group_laws_cmp;

/// A container once its entities have been absorbed into the model.
#[derive(Debug)]
pub struct NativeContainerOwned {
    pub input_index: usize,
    pub byte_offset: usize,
    pub entity_count: usize,
    pub symbols: SymbolTable,
}

pub struct ContainerOwnedView {
    pub input_index: usize,
    pub byte_offset: usize,
    pub entity_count: usize,
    pub symbols: SymbolTableView,
}

impl View for NativeContainerOwned {
    type V = ContainerOwnedView;

    open spec fn view(&self) -> ContainerOwnedView {
        ContainerOwnedView {
            input_index: self.input_index,
            byte_offset: self.byte_offset,
            entity_count: self.entity_count,
            symbols: self.symbols@,
        }
    }
}

/// An Ion fragment of the book: one entity payload.
#[derive(Debug)]
pub struct NativeFragment {
    pub container_index: usize,
    pub entity_id: u32,
    pub fragment_type: u32,
    pub value: IonValue,
}

pub struct FragmentView {
    pub container_index: usize,
    pub entity_id: u32,
    pub fragment_type: u32,
    pub value: IonModel,
}

impl View for NativeFragment {
    type V = FragmentView;

    open spec fn view(&self) -> FragmentView {
        FragmentView {
            container_index: self.container_index,
            entity_id: self.entity_id,
            fragment_type: self.fragment_type,
            value: self.value@,
        }
    }
}

/// Raw media bytes found in an entity or in an Ion blob.
#[derive(Debug)]
pub struct NativeResource {
    pub container_index: usize,
    pub fragment_type: u32,
    pub entity_id: Option<u32>,
    pub media_type: String,
    pub bytes: Vec<u8>,
    pub entity_info: Option<IonValue>,
}

pub struct ResourceView {
    pub container_index: usize,
    pub fragment_type: u32,
    pub entity_id: Option<u32>,
    pub media_type: Seq<char>,
    pub bytes: Seq<u8>,
    pub entity_info: Option<IonModel>,
}

impl View for NativeResource {
    type V = ResourceView;

    open spec fn view(&self) -> ResourceView {
        ResourceView {
            container_index: self.container_index,
            fragment_type: self.fragment_type,
            entity_id: self.entity_id,
            media_type: self.media_type@,
            bytes: self.bytes@,
            entity_info: match self.entity_info {
                Some(v) => Some(v@),
                None => None,
            },
        }
    }
}

/// Where a `$266` anchor points.
#[derive(Debug)]
pub enum KfxLinkTarget {
    Position(u32),
    Uri(String),
}

pub enum LinkTargetView {
    Position(u32),
    Uri(Seq<char>),
}

impl View for KfxLinkTarget {
    type V = LinkTargetView;

    open spec fn view(&self) -> LinkTargetView {
        match self {
            KfxLinkTarget::Position(p) => LinkTargetView::Position(*p),
            KfxLinkTarget::Uri(u) => LinkTargetView::Uri(u@),
        }
    }
}

/// A navigation entry before its target is resolved to a document.
#[derive(Debug)]
pub struct NavPointDraft {
    pub label: String,
    pub target: u32,
    pub heading_level: Option<u8>,
    pub children: Vec<NavPointDraft>,
}

pub struct NavView {
    pub label: Seq<char>,
    pub target: u32,
    pub heading_level: Option<u8>,
    pub children: Seq<NavView>,
}

impl NavPointDraft {
    pub open spec fn nav_view(self) -> NavView
        decreases self,
    {
        NavView {
            label: self.label@,
            target: self.target,
            heading_level: self.heading_level,
            children: nav_views(self.children@),
        }
    }
}

pub open spec fn nav_views(s: Seq<NavPointDraft>) -> Seq<NavView>
    decreases s,
{
    if s.len() == 0 {
        Seq::empty()
    } else {
        nav_views(s.subrange(0, s.len() - 1)).push(s[s.len() - 1].nav_view())
    }
}

pub proof fn lemma_nav_views_push(s: Seq<NavPointDraft>, p: NavPointDraft)
    ensures
        nav_views(s.push(p)) == nav_views(s).push(p.nav_view()),
{
    assert(s.push(p).subrange(0, s.len() as int) =~= s);
}

pub proof fn lemma_nav_views_append(s: Seq<NavPointDraft>, t: Seq<NavPointDraft>)
    ensures
        nav_views(s + t) == nav_views(s) + nav_views(t),
    decreases t.len(),
{
    if t.len() == 0 {
        assert(s + t =~= s);
        assert(nav_views(s) + nav_views(t) =~= nav_views(s));
    } else {
        let t0 = t.subrange(0, t.len() - 1);
        lemma_nav_views_append(s, t0);
        assert((s + t).subrange(0, (s + t).len() - 1) =~= s + t0);
        assert(nav_views(s) + nav_views(t) =~= (nav_views(s) + nav_views(t0)).push(t[t.len() - 1].nav_view()));
    }
}

/// Book metadata found in `kindle_title_metadata` entries.
#[derive(Debug)]
pub struct Metadata {
    pub title: Option<String>,
    pub authors: Vec<String>,
    pub language: Option<String>,
    pub publisher: Option<String>,
    pub description: Option<String>,
    pub date: Option<String>,
    pub dates: Vec<String>,
    pub identifiers: Vec<String>,
}

pub struct MetadataView {
    pub title: Option<Seq<char>>,
    pub authors: Seq<Seq<char>>,
    pub language: Option<Seq<char>>,
    pub publisher: Option<Seq<char>>,
    pub description: Option<Seq<char>>,
    pub date: Option<Seq<char>>,
    pub dates: Seq<Seq<char>>,
    pub identifiers: Seq<Seq<char>>,
}

pub open spec fn opt_str(s: Option<String>) -> Option<Seq<char>> {
    match s {
        Some(x) => Some(x@),
        None => None,
    }
}

pub open spec fn strs(s: Seq<String>) -> Seq<Seq<char>> {
    s.map_values(|x: String| x@)
}

impl View for Metadata {
    type V = MetadataView;

    open spec fn view(&self) -> MetadataView {
        MetadataView {
            title: opt_str(self.title),
            authors: strs(self.authors@),
            language: opt_str(self.language),
            publisher: opt_str(self.publisher),
            description: opt_str(self.description),
            date: opt_str(self.date),
            dates: strs(self.dates@),
            identifiers: strs(self.identifiers@),
        }
    }
}

impl Metadata {
    pub fn new() -> (r: Self)
        ensures
            r@ == (MetadataView {
                title: None,
                authors: Seq::empty(),
                language: None,
                publisher: None,
                description: None,
                date: None,
                dates: Seq::empty(),
                identifiers: Seq::empty(),
            }),
    {
        let r = Metadata {
            title: None,
            authors: Vec::new(),
            language: None,
            publisher: None,
            description: None,
            date: None,
            dates: Vec::new(),
            identifiers: Vec::new(),
        };
        assert(r@.authors =~= Seq::<Seq<char>>::empty());
        assert(r@.dates =~= Seq::<Seq<char>>::empty());
        assert(r@.identifiers =~= Seq::<Seq<char>>::empty());
        r
    }
}

/// Everything read from a KFX file-set before semantic decoding.
#[derive(Debug)]
pub struct NativeModel {
    pub containers: Vec<NativeContainerOwned>,
    pub symbols: SymbolTable,
    pub metadata: Metadata,
    pub string_tables: BTreeMap<u32, Vec<String>>,
    pub fragments: Vec<NativeFragment>,
    pub resources: Vec<NativeResource>,
    pub cover_resource_ids: BTreeSet<u32>,
    pub cover_resource_fids: StringSet,
    pub link_targets: BTreeMap<(usize, u64), KfxLinkTarget>,
    pub navigation: Vec<NavPointDraft>,
    pub warnings: Vec<String>,
    pub unknown_features: StringSet,
    pub input_loss: Vec<String>,
    pub drm_detected: bool,
}

pub struct NativeModelView {
    pub containers: Seq<ContainerOwnedView>,
    pub symbols: SymbolTableView,
    pub metadata: MetadataView,
    pub string_tables: Map<u32, Seq<Seq<char>>>,
    pub fragments: Seq<FragmentView>,
    pub resources: Seq<ResourceView>,
    pub cover_resource_ids: Set<u32>,
    pub cover_resource_fids: Set<Seq<char>>,
    pub link_targets: Map<(usize, u64), LinkTargetView>,
    pub navigation: Seq<NavView>,
    pub warnings: Seq<Seq<char>>,
    pub unknown_features: Set<Seq<char>>,
    pub input_loss: Seq<Seq<char>>,
    pub drm_detected: bool,
}

pub open spec fn container_views(s: Seq<NativeContainerOwned>) -> Seq<ContainerOwnedView> {
    s.map_values(|c: NativeContainerOwned| c@)
}

pub open spec fn fragment_views(s: Seq<NativeFragment>) -> Seq<FragmentView> {
    s.map_values(|f: NativeFragment| f@)
}

pub open spec fn resource_views(s: Seq<NativeResource>) -> Seq<ResourceView> {
    s.map_values(|r: NativeResource| r@)
}

pub open spec fn table_views(m: Map<u32, Vec<String>>) -> Map<u32, Seq<Seq<char>>> {
    m.map_values(|v: Vec<String>| strs(v@))
}

pub open spec fn link_views(m: Map<(usize, u64), KfxLinkTarget>) -> Map<(usize, u64), LinkTargetView> {
    m.map_values(|t: KfxLinkTarget| t@)
}

impl View for NativeModel {
    type V = NativeModelView;

    open spec fn view(&self) -> NativeModelView {
        NativeModelView {
            containers: container_views(self.containers@),
            symbols: self.symbols@,
            metadata: self.metadata@,
            string_tables: table_views(self.string_tables@),
            fragments: fragment_views(self.fragments@),
            resources: resource_views(self.resources@),
            cover_resource_ids: self.cover_resource_ids@,
            cover_resource_fids: self.cover_resource_fids.set(),
            link_targets: link_views(self.link_targets@),
            navigation: nav_views(self.navigation@),
            warnings: strs(self.warnings@),
            unknown_features: self.unknown_features.set(),
            input_loss: strs(self.input_loss@),
            drm_detected: self.drm_detected,
        }
    }
}

impl NativeModel {
    /// The ordered sets of the model are well formed.
    pub open spec fn wf(&self) -> bool {
        self.unknown_features.wf() && self.cover_resource_fids.wf()
    }

    /// An empty model.
    pub fn new() -> (r: Self)
        ensures
            r.wf(),
            r@ == empty_model_view(),
    {
        let r = NativeModel {
            containers: Vec::new(),
            symbols: SymbolTable::new(),
            metadata: Metadata::new(),
            string_tables: BTreeMap::new(),
            fragments: Vec::new(),
            resources: Vec::new(),
            cover_resource_ids: BTreeSet::new(),
            cover_resource_fids: StringSet::new(),
            link_targets: BTreeMap::new(),
            navigation: Vec::new(),
            warnings: Vec::new(),
            unknown_features: StringSet::new(),
            input_loss: Vec::new(),
            drm_detected: false,
        };
        assert(r@.string_tables =~= Map::<u32, Seq<Seq<char>>>::empty());
        assert(r@.link_targets =~= Map::<(usize, u64), LinkTargetView>::empty());
        assert(r.unknown_features.set() =~= Set::<Seq<char>>::empty());
        assert(r.cover_resource_fids.set() =~= Set::<Seq<char>>::empty());
        assert(r@.containers =~= Seq::<ContainerOwnedView>::empty());
        assert(r@.fragments =~= Seq::<FragmentView>::empty());
        assert(r@.resources =~= Seq::<ResourceView>::empty());
        assert(r@.navigation =~= Seq::<NavView>::empty());
        assert(r@.warnings =~= Seq::<Seq<char>>::empty());
        assert(r@.input_loss =~= Seq::<Seq<char>>::empty());
        assert(r@.symbols.names =~= Map::<u64, Seq<char>>::empty());
        assert(r@.symbols.imports =~= Seq::<ImportView>::empty());
        r
    }
}

/// The view of a freshly made model.
pub open spec fn empty_model_view() -> NativeModelView {
    NativeModelView {
        containers: Seq::empty(),
        symbols: SymbolTableView { names: Map::empty(), imports: Seq::empty() },
        metadata: MetadataView {
            title: None,
            authors: Seq::empty(),
            language: None,
            publisher: None,
            description: None,
            date: None,
            dates: Seq::empty(),
            identifiers: Seq::empty(),
        },
        string_tables: Map::empty(),
        fragments: Seq::empty(),
        resources: Seq::empty(),
        cover_resource_ids: Set::empty(),
        cover_resource_fids: Set::empty(),
        link_targets: Map::empty(),
        navigation: Seq::empty(),
        warnings: Seq::empty(),
        unknown_features: Set::empty(),
        input_loss: Seq::empty(),
        drm_detected: false,
    }
}


/// `a + i`, saturating at `u64::MAX`.
pub open spec fn sat_add(a: u64, i: int) -> u64 {
    if a + i > u64::MAX {
        u64::MAX
    } else {
        (a + i) as u64
    }
}

/// The names of the first `n` local symbols, numbered from `start`.
pub open spec fn names_fold(start: u64, syms: Seq<IonModel>, n: int) -> Map<u64, Seq<char>>
    decreases n,
{
    if n <= 0 {
        Map::empty()
    } else {
        let prev = names_fold(start, syms, n - 1);
        match string_of(syms[n - 1]) {
            Some(t) => prev.insert(sat_add(start, n - 1), t),
            None => prev,
        }
    }
}

pub open spec fn min(a: int, b: int) -> int {
    if a <= b {
        a
    } else {
        b
    }
}

/// The symbol table a symbol-table struct declares.
pub open spec fn table_spec(value: IonModel) -> SymbolTableView {
    match struct_fields_of(value) {
        None => SymbolTableView { names: Map::empty(), imports: Seq::empty() },
        Some(fields) => SymbolTableView {
            names: match local_start_spec(fields) {
                None => Map::empty(),
                Some(start) => match first_field(fields, FIELD_SYMBOL_TABLE_SYMBOLS) {
                    Some(IonModel::List(syms)) => names_fold(
                        start,
                        syms,
                        min(syms.len() as int, MAX_STRING_ITEMS as int),
                    ),
                    _ => Map::empty(),
                },
            },
            imports: table_imports(fields),
        },
    }
}

/// The features a symbol-table struct raises: an import range that cannot
/// be placed, or a `max_id` below the first local symbol.
pub open spec fn table_features(value: IonModel) -> Set<Seq<char>> {
    match struct_fields_of(value) {
        None => Set::empty(),
        Some(fields) => match local_start_spec(fields) {
            None => set!["symbol-table-import-offset-unresolved"@],
            Some(start) => match first_field(fields, FIELD_SYMBOL_TABLE_SYMBOLS) {
                Some(IonModel::List(_)) => match first_field(fields, FIELD_SYMBOL_TABLE_MAX_ID) {
                    Some(v) => match int_of(v) {
                        Some(m) => if 0 <= m < start {
                            set!["symbol-table-max-id-inconsistent"@]
                        } else {
                            Set::empty()
                        },
                        None => Set::empty(),
                    },
                    None => Set::empty(),
                },
                _ => Set::empty(),
            },
        },
    }
}

/// Copies a string.
pub fn copy_string(s: &String) -> (r: String)
    ensures
        r@ == s@,
{
    s.as_str().to_owned()
}

pub fn copy_opt_string(s: &Option<String>) -> (r: Option<String>)
    ensures
        opt_str(r) == opt_str(*s),
{
    match s {
        Some(x) => Some(copy_string(x)),
        None => None,
    }
}

fn copy_import(i: &SymbolTableImport) -> (r: SymbolTableImport)
    ensures
        r@ == i@,
{
    SymbolTableImport { name: copy_opt_string(&i.name), version: i.version, max_id: i.max_id }
}

/// The import described by an import struct.
fn import_from(value: &IonValue) -> (r: SymbolTableImport)
    ensures
        r@ == import_of(value@),
{
    let name = match struct_get(value, FIELD_SYMBOL_TABLE_IMPORT_NAME) {
        Some(v) => match as_string(v) {
            Some(s) => Some(s.to_owned()),
            None => None,
        },
        None => None,
    };
    let version = match struct_get(value, FIELD_SYMBOL_TABLE_IMPORT_VERSION) {
        Some(v) => match as_int(v) {
            Some(i) => if i >= 0 && i <= 0xffff_ffff {
                Some(i as u32)
            } else {
                None
            },
            None => None,
        },
        None => None,
    };
    let max_id = match struct_get(value, FIELD_SYMBOL_TABLE_IMPORT_MAX_ID) {
        Some(v) => match as_int(v) {
            Some(i) => if i >= 0 && i <= 0xffff_ffff {
                Some(i as u32)
            } else {
                None
            },
            None => None,
        },
        None => None,
    };
    SymbolTableImport { name, version, max_id }
}

/// Reads a symbol-table struct into the model: the table is returned, its
/// imports and names are added to the model's global table, and any
/// inconsistency is recorded as an unknown feature.
pub fn absorb_symbol_table(model: &mut NativeModel, value: &IonValue) -> (r: SymbolTable)
    requires
        old(model).wf(),
    ensures
        final(model).wf(),
        r@ == table_spec(value@),
        final(model)@ == (NativeModelView {
            symbols: SymbolTableView {
                names: old(model)@.symbols.names.union_prefer_right(r@.names),
                imports: old(model)@.symbols.imports + r@.imports,
            },
            unknown_features: old(model)@.unknown_features.union(table_features(value@)),
            ..old(model)@
        }),
{
    let ghost old_model = model@;
    let mut table = SymbolTable::new();
    let fields = match unwrap_struct(value) {
        None => {
            assert(model@.symbols.names =~= old_model.symbols.names.union_prefer_right(table@.names));
            assert(model@.symbols.imports =~= old_model.symbols.imports + table@.imports);
            assert(model@.unknown_features =~= old_model.unknown_features.union(table_features(value@)));
            return table;
        },
        Some(f) => f,
    };
    let ghost fm = field_models(fields@);
    // Imports.
    match struct_get_from_fields(fields, FIELD_SYMBOL_TABLE_IMPORTS) {
        Some(IonValue::List(imports)) => {
            proof {
                lemma_models_index(imports@);
            }
            let mut i: usize = 0;
            while i < imports.len()
                invariant
                    0 <= i <= imports@.len(),
                    models(imports@).len() == imports@.len(),
                    forall|k: int| 0 <= k < imports@.len() ==> #[trigger] models(imports@)[k] == imports@[k]@,
                    table@.imports == imports_of(models(imports@).subrange(0, i as int)),
                    table@.names == Map::<u64, Seq<char>>::empty(),
                    model.wf(),
                    model@ == (NativeModelView {
                        symbols: SymbolTableView {
                            names: old_model.symbols.names,
                            imports: old_model.symbols.imports + table@.imports,
                        },
                        ..old_model
                    }),
                decreases imports@.len() - i,
            {
                let ghost ms = models(imports@);
                proof {
                    assert(ms.subrange(0, i + 1).subrange(0, i as int) =~= ms.subrange(0, i as int));
                }
                let import = &imports[i];
                if unwrap_struct(import).is_some() {
                    let parsed = import_from(import);
                    let copy = copy_import(&parsed);
                    let ghost before_global = model.symbols.imports@;
                    let ghost before_table = table.imports@;
                    model.symbols.imports.push(copy);
                    table.imports.push(parsed);
                    proof {
                        assert(import_views(model.symbols.imports@) =~= import_views(before_global).push(parsed@));
                        assert(import_views(table.imports@) =~= import_views(before_table).push(parsed@));
                        assert(model@.symbols.imports =~= old_model.symbols.imports + table@.imports);
                    }
                }
                i = i + 1;
            }
            assert(models(imports@).subrange(0, imports@.len() as int) =~= models(imports@));
        },
        _ => {
            assert(table@.imports =~= Seq::<ImportView>::empty());
            assert(model@.symbols.imports =~= old_model.symbols.imports + table@.imports);
        },
    }
    assert(table@.imports == table_imports(fm));
    let ghost after_imports = model@;
    let local_start = match local_symbol_start(fields) {
        None => {
            model.unknown_features.insert_str("symbol-table-import-offset-unresolved");
            proof {
                assert(model@.symbols.names =~= old_model.symbols.names.union_prefer_right(table@.names));
                assert(model@.unknown_features =~= old_model.unknown_features.union(table_features(value@)));
            }
            return table;
        },
        Some(s) => s,
    };
    let symbols = match struct_get_from_fields(fields, FIELD_SYMBOL_TABLE_SYMBOLS) {
        Some(IonValue::List(symbols)) => symbols,
        _ => {
            proof {
                assert(model@.symbols.names =~= old_model.symbols.names.union_prefer_right(table@.names));
                assert(model@.unknown_features =~= old_model.unknown_features.union(table_features(value@)));
            }
            return table;
        },
    };
    proof {
        lemma_models_index(symbols@);
    }
    let limit = if symbols.len() < MAX_STRING_ITEMS {
        symbols.len()
    } else {
        MAX_STRING_ITEMS
    };
    let mut index: usize = 0;
    assert(table@.names =~= Map::<u64, Seq<char>>::empty());
    assert(model@.symbols.names =~= old_model.symbols.names.union_prefer_right(table@.names));
    while index < limit
        invariant
            0 <= index <= limit <= symbols@.len(),
            limit == min(symbols@.len() as int, MAX_STRING_ITEMS as int),
            models(symbols@).len() == symbols@.len(),
            forall|k: int| 0 <= k < symbols@.len() ==> #[trigger] models(symbols@)[k] == symbols@[k]@,
            table@.names == names_fold(local_start, models(symbols@), index as int),
            table@.imports == table_imports(fm),
            model.wf(),
            model@ == (NativeModelView {
                symbols: SymbolTableView {
                    names: old_model.symbols.names.union_prefer_right(table@.names),
                    imports: old_model.symbols.imports + table@.imports,
                },
                ..old_model
            }),
        decreases limit - index,
    {
        match as_string(&symbols[index]) {
            Some(text) => {
                let id = local_start.saturating_add(index as u64);
                let ghost before_names = table@.names;
                let ghost prev_global = model@.symbols.names;
                let a = text.to_owned();
                let b = text.to_owned();
                model.symbols.names.insert(id, a);
                table.names.insert(id, b);
                proof {
                    assert(table@.names =~= before_names.insert(id, text@));
                    assert(model@.symbols.names =~= prev_global.insert(id, text@));
                    assert(model@.symbols.names =~= old_model.symbols.names.union_prefer_right(table@.names));
                }
            },
            None => {},
        }
        index = index + 1;
    }
    match struct_get_from_fields(fields, FIELD_SYMBOL_TABLE_MAX_ID) {
        Some(v) => match as_int(v) {
            Some(m) => {
                if m >= 0 && (m as u64) < local_start {
                    model.unknown_features.insert_str("symbol-table-max-id-inconsistent");
                }
            },
            None => {},
        },
        None => {},
    }
    proof {
        assert(model@.unknown_features =~= old_model.unknown_features.union(table_features(value@)));
    }
    table
}


/// The model after absorbing a symbol table.
pub open spec fn absorb_table_model(m: NativeModelView, v: IonModel) -> NativeModelView {
    NativeModelView {
        symbols: SymbolTableView {
            names: m.symbols.names.union_prefer_right(table_spec(v).names),
            imports: m.symbols.imports + table_spec(v).imports,
        },
        unknown_features: m.unknown_features.union(table_features(v)),
        ..m
    }
}

/// The model after absorbing one entity of container `ci`: DRM is noted, an
/// Ion payload becomes a fragment and a raw payload a resource.
pub open spec fn absorb_entity_spec(m: NativeModelView, e: EntityView, ci: usize) -> NativeModelView {
    let m1 = if e.drm_scheme != 0 {
        NativeModelView { drm_detected: true, ..m }
    } else {
        m
    };
    match e.payload {
        Some(v) => NativeModelView {
            fragments: m1.fragments.push(
                FragmentView {
                    container_index: ci,
                    entity_id: e.id,
                    fragment_type: e.type_id,
                    value: v,
                },
            ),
            ..m1
        },
        None => match e.raw_payload {
            Some(raw) => NativeModelView {
                resources: m1.resources.push(
                    ResourceView {
                        container_index: ci,
                        fragment_type: e.type_id,
                        entity_id: Some(e.id),
                        media_type: media_spec(raw).0,
                        bytes: raw,
                        entity_info: Some(e.info),
                    },
                ),
                ..m1
            },
            None => m1,
        },
    }
}

pub open spec fn absorb_entities_spec(m: NativeModelView, ents: Seq<EntityView>, ci: usize) -> NativeModelView
    decreases ents.len(),
{
    if ents.len() == 0 {
        m
    } else {
        absorb_entity_spec(
            absorb_entities_spec(m, ents.subrange(0, ents.len() - 1), ci),
            ents[ents.len() - 1],
            ci,
        )
    }
}

pub open spec fn all_ascii(b: Seq<u8>) -> bool {
    forall|i: int| 0 <= i < b.len() ==> b[i] < 128
}

/// The unknown features a container header raises.
pub open spec fn container_features(c: ContainerView) -> Set<Seq<char>> {
    let a = if int_field_or_zero(c.info, FIELD_COMPRESSION) != 0 {
        set!["container-compression"@]
    } else {
        Set::empty()
    };
    let b = match int_field(c.info, FIELD_CHUNK_SIZE) {
        Some(size) => if size != 4096 {
            set!["non-default-chunk-size"@]
        } else {
            Set::empty()
        },
        None => Set::empty(),
    };
    let d = if c.capabilities is Some {
        set!["format-capabilities-preserved-native-only"@]
    } else {
        Set::empty()
    };
    let g = if c.kfxgen_info.len() > 0 && !all_ascii(c.kfxgen_info) {
        set!["non-ascii-generator-metadata"@]
    } else {
        Set::empty()
    };
    a.union(b).union(d).union(g)
}

/// The model after absorbing container `ci`, and the container's own
/// symbol table.
pub open spec fn absorb_container_spec(m: NativeModelView, c: ContainerView, ci: usize) -> (NativeModelView, SymbolTableView) {
    let m1 = if c.header.version == 1 {
        NativeModelView {
            warnings: m.warnings.push(
                "CONT version 1 accepted with the version-2 compatibility reader"@,
            ),
            ..m
        }
    } else {
        m
    };
    let m2 = match c.doc_symbols {
        Some(v) => absorb_table_model(m1, v),
        None => m1,
    };
    let table = match c.doc_symbols {
        Some(v) => table_spec(v),
        None => SymbolTableView { names: Map::empty(), imports: Seq::empty() },
    };
    let m3 = if int_field_or_zero(c.info, FIELD_DRM_SCHEME) != 0 {
        NativeModelView { drm_detected: true, ..m2 }
    } else {
        m2
    };
    let m4 = NativeModelView {
        unknown_features: m3.unknown_features.union(container_features(c)),
        ..m3
    };
    (absorb_entities_spec(m4, c.entities, ci), table)
}

fn bytes_are_ascii(b: &Vec<u8>) -> (r: bool)
    ensures
        r == all_ascii(b@),
{
    let mut i: usize = 0;
    while i < b.len()
        invariant
            0 <= i <= b@.len(),
            forall|j: int| 0 <= j < i ==> b@[j] < 128,
        decreases b@.len() - i,
    {
        if b[i] >= 128 {
            return false;
        }
        i = i + 1;
    }
    true
}

/// Moves the entities of container `ci` into the model.
fn absorb_entities(model: &mut NativeModel, entities: Vec<NativeEntity>, ci: usize)
    requires
        old(model).wf(),
    ensures
        final(model).wf(),
        final(model)@ == absorb_entities_spec(old(model)@, entity_views(entities@), ci),
{
    let ghost start = model@;
    let ghost ev = entity_views(entities@);
    let ghost n = ev.len();
    let total = entities.len();
    let mut src = entities;
    let ghost original = src@;
    let mut rest: Vec<NativeEntity> = Vec::new();
    while src.len() > 0
        invariant
            original == entities@,
            n == original.len(),
            src@ == original.subrange(0, n - rest@.len()),
            rest@.len() <= n,
            forall|k: int| 0 <= k < rest@.len() ==> #[trigger] rest@[k] == original[n - 1 - k],
        decreases src@.len(),
    {
        let e = src.pop().unwrap();
        rest.push(e);
    }
    let ghost reversed = rest@;
    assert(reversed.len() == n);
    let mut done: usize = 0;
    while rest.len() > 0
        invariant
            model.wf(),
            ev == entity_views(entities@),
            n == ev.len(),
            reversed.len() == n,
            forall|k: int| 0 <= k < n ==> #[trigger] reversed[k] == entities@[n - 1 - k],
            rest@ == reversed.subrange(0, n - done),
            done <= n,
            n == total,
            model@ == absorb_entities_spec(start, ev.subrange(0, done as int), ci),
        decreases rest@.len(),
    {
        let e = rest.pop().unwrap();
        proof {
            assert(e == entities@[done as int]);
            assert(ev.subrange(0, done + 1).subrange(0, done as int) =~= ev.subrange(0, done as int));
            assert(ev[done as int] == e@);
        }
        if e.drm_scheme != 0 {
            model.drm_detected = true;
        }
        let NativeEntity { id, type_id, payload, raw_payload, info, drm_scheme } = e;
        match payload {
            Some(value) => {
                let ghost before = model.fragments@;
                model.fragments.push(
                    NativeFragment { container_index: ci, entity_id: id, fragment_type: type_id, value },
                );
                assert(fragment_views(model.fragments@) =~= fragment_views(before).push(model.fragments@.last()@));
            },
            None => match raw_payload {
                Some(raw) => {
                    let (media_type, _) = media_type_for_bytes(raw.as_slice());
                    let ghost before = model.resources@;
                    model.resources.push(
                        NativeResource {
                            container_index: ci,
                            fragment_type: type_id,
                            entity_id: Some(id),
                            media_type,
                            bytes: raw,
                            entity_info: Some(info),
                        },
                    );
                    assert(resource_views(model.resources@) =~= resource_views(before).push(model.resources@.last()@));
                },
                None => {},
            },
        }
        done = done + 1;
    }
    assert(ev.subrange(0, n as int) =~= ev);
}

/// Absorbs container `ci` into the model: its symbol table, its header
/// observations, and its entities. Returns the container's symbol table.
pub fn absorb_container(model: &mut NativeModel, container: NativeContainer, ci: usize) -> (r: SymbolTable)
    requires
        old(model).wf(),
    ensures
        final(model).wf(),
        (final(model)@, r@) == absorb_container_spec(old(model)@, container@, ci),
{
    let ghost c = container@;
    let NativeContainer { header, info, doc_symbols, capabilities, entities, kfxgen_info } = container;
    if header.version == 1 {
        let ghost before = model.warnings@;
        model.warnings.push(
            "CONT version 1 accepted with the version-2 compatibility reader".to_owned(),
        );
        assert(strs(model.warnings@) =~= strs(before).push(
            "CONT version 1 accepted with the version-2 compatibility reader"@,
        ));
    }
    let symbols = match &doc_symbols {
        Some(v) => absorb_symbol_table(model, v),
        None => {
            let t = SymbolTable::new();
            t
        },
    };
    if int_field_or_zero_of(&info, FIELD_DRM_SCHEME) != 0 {
        model.drm_detected = true;
    }
    let ghost before_features = model@;
    if int_field_or_zero_of(&info, FIELD_COMPRESSION) != 0 {
        model.unknown_features.insert_str("container-compression");
    }
    match struct_get(&info, FIELD_CHUNK_SIZE) {
        Some(v) => match as_int(v) {
            Some(size) => if size != 4096 {
                model.unknown_features.insert_str("non-default-chunk-size");
            },
            None => {},
        },
        None => {},
    }
    if capabilities.is_some() {
        model.unknown_features.insert_str("format-capabilities-preserved-native-only");
    }
    if kfxgen_info.len() > 0 && !bytes_are_ascii(&kfxgen_info) {
        model.unknown_features.insert_str("non-ascii-generator-metadata");
    }
    proof {
        assert(model@.unknown_features =~= before_features.unknown_features.union(container_features(c)));
    }
    absorb_entities(model, entities, ci);
    symbols
}


/// Reading a file container by container always advances by at least the
/// minimum header length, so the reader never stalls.
pub proof fn lemma_container_progress(b: Seq<u8>, start: int, mode: ParseMode)
    ensures
        container_spec(b, start, mode) matches Ok((c, next)) ==> next >= start + 18,
{
    reveal(container_spec);
    match container_spec(b, start, mode) {
        Ok((c, next)) => {
            let header = container_header_spec(b, start)->Ok_0;
            let fields = crate::value::struct_fields_of(c.info)->Some_0;
            let (index_start, count, index_end) = crate::container::index_spec(b, start, fields)->Ok_0;
            lemma_container_end_after_header(b, start, header, fields, index_start, count, index_end);
        },
        Err(_) => {},
    }
}

pub open spec fn any_drm(ents: Seq<EntityView>) -> bool {
    exists|i: int| 0 <= i < ents.len() && #[trigger] ents[i].drm_scheme != 0
}

/// The model after reading every container of one input from `offset`.
pub open spec fn input_spec(
    m: NativeModelView,
    b: Seq<u8>,
    offset: int,
    input_index: usize,
    mode: ParseMode,
) -> Result<NativeModelView, KfxErrorView>
    decreases (if offset < b.len() { b.len() - offset } else { 0 }),
{
    if offset < 0 || offset >= b.len() {
        Ok(m)
    } else {
        match container_spec(b, offset, mode) {
            Err(e) => Err(e),
            Ok((c, next)) => if next <= offset {
                Err(KfxErrorView::InvalidHeader("container parser made no progress"@))
            } else {
                let m1 = if any_drm(c.entities) {
                    NativeModelView { drm_detected: true, ..m }
                } else {
                    m
                };
                let ci = m1.containers.len() as usize;
                let (m2, table) = absorb_container_spec(m1, c, ci);
                let m3 = NativeModelView {
                    containers: m2.containers.push(
                        ContainerOwnedView {
                            input_index,
                            byte_offset: offset as usize,
                            entity_count: c.entities.len() as usize,
                            symbols: table,
                        },
                    ),
                    ..m2
                };
                input_spec(m3, b, next, input_index, mode)
            },
        }
    }
}

pub open spec fn has_cont_prefix(b: Seq<u8>) -> bool {
    b.len() >= 4 && b[0] == 0x43 && b[1] == 0x4f && b[2] == 0x4e && b[3] == 0x54
}

/// The model after reading the first `k` inputs of a file-set.
pub open spec fn inputs_spec(m: NativeModelView, inputs: Seq<Seq<u8>>, k: int, mode: ParseMode) -> Result<NativeModelView, KfxErrorView>
    decreases k,
{
    if k <= 0 {
        Ok(m)
    } else {
        match inputs_spec(m, inputs, k - 1, mode) {
            Err(e) => Err(e),
            Ok(m1) => if !has_cont_prefix(inputs[k - 1]) {
                Err(
                    KfxErrorView::InvalidHeader(
                        "KFX input "@ + decimal((k - 1) as nat) + " is missing CONT signature"@,
                    ),
                )
            } else {
                input_spec(m1, inputs[k - 1], 0, (k - 1) as usize, mode)
            },
        }
    }
}

pub proof fn lemma_inputs_err(m: NativeModelView, inputs: Seq<Seq<u8>>, k: int, n: int, mode: ParseMode)
    requires
        0 < k <= n,
        inputs_spec(m, inputs, k, mode) is Err,
    ensures
        inputs_spec(m, inputs, n, mode) == inputs_spec(m, inputs, k, mode),
    decreases n - k,
{
    if n > k {
        lemma_inputs_err(m, inputs, k, n - 1, mode);
    }
}

pub open spec fn input_views(inputs: Seq<&[u8]>) -> Seq<Seq<u8>> {
    inputs.map_values(|b: &[u8]| b@)
}

fn entities_have_drm(entities: &Vec<NativeEntity>) -> (r: bool)
    ensures
        r == any_drm(entity_views(entities@)),
{
    let mut i: usize = 0;
    while i < entities.len()
        invariant
            0 <= i <= entities@.len(),
            forall|j: int| 0 <= j < i ==> entities@[j].drm_scheme == 0,
        decreases entities@.len() - i,
    {
        if entities[i].drm_scheme != 0 {
            assert(entity_views(entities@)[i as int].drm_scheme != 0);
            return true;
        }
        i = i + 1;
    }
    assert forall|j: int| 0 <= j < entity_views(entities@).len() implies #[trigger] entity_views(entities@)[j].drm_scheme == 0 by {
        assert(entity_views(entities@)[j] == entities@[j]@);
    }
    false
}

/// Reads every container of one input into the model.
fn read_input(model: &mut NativeModel, bytes: &[u8], input_index: usize, mode: ParseMode) -> (r: Result<(), AmazonKfxError>)
    requires
        old(model).wf(),
    ensures
        final(model).wf(),
        match r {
            Ok(()) => input_spec(old(model)@, bytes@, 0, input_index, mode) == Ok::<NativeModelView, KfxErrorView>(final(model)@),
            Err(e) => input_spec(old(model)@, bytes@, 0, input_index, mode) == Err::<NativeModelView, KfxErrorView>(e@),
        },
{
    let ghost start = model@;
    let mut offset: usize = 0;
    while offset < bytes.len()
        invariant
            model.wf(),
            start == old(model)@,
            input_spec(start, bytes@, 0, input_index, mode) == input_spec(model@, bytes@, offset as int, input_index, mode),
        decreases bytes@.len() - offset,
    {
        let (container, next) = match parse_container(bytes, offset, mode) {
            Ok(pair) => pair,
            Err(e) => {
                return Err(e);
            },
        };
        if next <= offset {
            return Err(AmazonKfxError::InvalidHeader(owned("container parser made no progress")));
        }
        if entities_have_drm(&container.entities) {
            model.drm_detected = true;
        }
        let container_index = model.containers.len();
        let entity_count = container.entities.len();
        let ghost c = container@;
        let symbols = absorb_container(model, container, container_index);
        let ghost before = model.containers@;
        model.containers.push(
            NativeContainerOwned { input_index, byte_offset: offset, entity_count, symbols },
        );
        assert(container_views(model.containers@) =~= container_views(before).push(model.containers@.last()@));
        if next >= bytes.len() {
            assert(input_spec(model@, bytes@, next as int, input_index, mode) == Ok::<NativeModelView, KfxErrorView>(model@));
            assert(input_spec(start, bytes@, 0, input_index, mode) == input_spec(model@, bytes@, next as int, input_index, mode));
            return Ok(());
        }
        offset = next;
    }
    Ok(())
}

/// Reads every container of every input of a file-set into a fresh model,
/// in input order; input `i` must start with the `CONT` signature.
pub fn read_containers(inputs: &[&[u8]], mode: ParseMode) -> (r: Result<NativeModel, AmazonKfxError>)
    ensures
        match r {
            Ok(m) => m.wf() && inputs@.len() > 0
                && inputs_spec(empty_model_view(), input_views(inputs@), inputs@.len() as int, mode) == Ok::<NativeModelView, KfxErrorView>(m@),
            Err(e) => inputs@.len() == 0 && e@ == KfxErrorView::InvalidHeader("KFX file-set contains no inputs"@)
                || inputs@.len() > 0
                && inputs_spec(empty_model_view(), input_views(inputs@), inputs@.len() as int, mode) == Err::<NativeModelView, KfxErrorView>(e@),
        },
{
    if inputs.len() == 0 {
        return Err(AmazonKfxError::InvalidHeader(owned("KFX file-set contains no inputs")));
    }
    let mut model = NativeModel::new();
    let ghost m0 = empty_model_view();
    let ghost views = input_views(inputs@);
    let mut input_index: usize = 0;
    while input_index < inputs.len()
        invariant
            0 <= input_index <= inputs@.len(),
            views == input_views(inputs@),
            m0 == empty_model_view(),
            model.wf(),
            inputs_spec(m0, views, input_index as int, mode) == Ok::<NativeModelView, KfxErrorView>(model@),
        decreases inputs@.len() - input_index,
    {
        let bytes: &[u8] = inputs[input_index];
        assert(views[input_index as int] == bytes@);
        if !(bytes.len() >= 4 && bytes[0] == 0x43 && bytes[1] == 0x4f && bytes[2] == 0x4e && bytes[3] == 0x54) {
            let d = decimal_string(input_index as u64);
            let head = join2("KFX input ", d.as_str());
            let message = join2(head.as_str(), " is missing CONT signature");
            proof {
                lemma_inputs_err(m0, views, input_index + 1, inputs@.len() as int, mode);
            }
            return Err(AmazonKfxError::InvalidHeader(message));
        }
        match read_input(&mut model, bytes, input_index, mode) {
            Ok(()) => {},
            Err(e) => {
                proof {
                    lemma_inputs_err(m0, views, input_index + 1, inputs@.len() as int, mode);
                }
                return Err(e);
            },
        }
        input_index = input_index + 1;
    }
    Ok(model)
}

} // verus!
