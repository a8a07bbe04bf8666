//! Ion local symbol tables as KFX containers declare them.
use vstd::prelude::*;
use std::collections::BTreeMap;
use crate::ion::{IonModel, IonValue, models, lemma_models_index};
use crate::value::{
    as_int, as_string, first_field, int_of, list_of, string_of, struct_fields_of, struct_get,
    struct_get_from_fields, unwrap_struct, field_of, opt_model,
};
use crate::ion::field_models;

verus! {

pub const FIELD_SYMBOL_TABLE_IMPORTS: u64 = 6;
pub const FIELD_SYMBOL_TABLE_SYMBOLS: u64 = 7;
pub const FIELD_SYMBOL_TABLE_MAX_ID: u64 = 8;
pub const FIELD_SYMBOL_TABLE_IMPORT_NAME: u64 = 4;
pub const FIELD_SYMBOL_TABLE_IMPORT_VERSION: u64 = 5;
pub const FIELD_SYMBOL_TABLE_IMPORT_MAX_ID: u64 = 8;
pub const ION_SYSTEM_SYMBOL_COUNT: u64 = 9;
pub const MAX_STRING_ITEMS: usize = 200_000;

/// A shared symbol table that a local table imports.
#[derive(Debug)]
pub struct SymbolTableImport {
    pub name: Option<String>,
    pub version: Option<u32>,
    pub max_id: Option<u32>,
}

pub struct ImportView {
    pub name: Option<Seq<char>>,
    pub version: Option<u32>,
    pub max_id: Option<u32>,
}

impl View for SymbolTableImport {
    type V = ImportView;

    open spec fn view(&self) -> ImportView {
        ImportView {
            name: match self.name {
                Some(s) => Some(s@),
                None => None,
            },
            version: self.version,
            max_id: self.max_id,
        }
    }
}

/// Symbol ids with their text, and the imports that precede the local ids.
#[derive(Debug)]
pub struct SymbolTable {
    pub names: BTreeMap<u64, String>,
    pub imports: Vec<SymbolTableImport>,
}

pub struct SymbolTableView {
    pub names: Map<u64, Seq<char>>,
    pub imports: Seq<ImportView>,
}

pub open spec fn name_views(m: Map<u64, String>) -> Map<u64, Seq<char>> {
    m.map_values(|s: String| s@)
}

pub open spec fn import_views(s: Seq<SymbolTableImport>) -> Seq<ImportView> {
    s.map_values(|i: SymbolTableImport| i@)
}

impl View for SymbolTable {
    type V = SymbolTableView;

    open spec fn view(&self) -> SymbolTableView {
        SymbolTableView { names: name_views(self.names@), imports: import_views(self.imports@) }
    }
}

impl SymbolTable {
    pub fn new() -> (r: Self)
        ensures
            r@.names == Map::<u64, Seq<char>>::empty(),
            r@.imports == Seq::<ImportView>::empty(),
    {
        let r = SymbolTable { names: BTreeMap::new(), imports: Vec::new() };
        assert(r@.names =~= Map::<u64, Seq<char>>::empty());
        assert(r@.imports =~= Seq::<ImportView>::empty());
        r
    }
}

/// A non-negative integer field that fits in `u32`.
pub open spec fn u32_field(m: IonModel, id: u64) -> Option<u32> {
    match field_of(m, id) {
        Some(v) => match int_of(v) {
            Some(i) => if 0 <= i <= u32::MAX {
                Some(i as u32)
            } else {
                None
            },
            None => None,
        },
        None => None,
    }
}

/// The import described by an import struct.
pub open spec fn import_of(m: IonModel) -> ImportView {
    ImportView {
        name: match field_of(m, FIELD_SYMBOL_TABLE_IMPORT_NAME) {
            Some(v) => string_of(v),
            None => None,
        },
        version: u32_field(m, FIELD_SYMBOL_TABLE_IMPORT_VERSION),
        max_id: u32_field(m, FIELD_SYMBOL_TABLE_IMPORT_MAX_ID),
    }
}

/// The imports of an import list, skipping entries that are not structs.
pub open spec fn imports_of(items: Seq<IonModel>) -> Seq<ImportView>
    decreases items.len(),
{
    if items.len() == 0 {
        Seq::empty()
    } else {
        let prev = imports_of(items.subrange(0, items.len() - 1));
        let last = items[items.len() - 1];
        if struct_fields_of(last) is Some {
            prev.push(import_of(last))
        } else {
            prev
        }
    }
}

/// The imports a symbol-table struct declares.
pub open spec fn table_imports(fields: Seq<(u64, IonModel)>) -> Seq<ImportView> {
    match first_field(fields, FIELD_SYMBOL_TABLE_IMPORTS) {
        Some(IonModel::List(items)) => imports_of(items),
        _ => Seq::empty(),
    }
}

/// The number of symbols the first `n` imports of an import list bring in
/// (each import's `max_id` less the system symbols), or `None` when an
/// import struct has no usable `max_id` or the sum overflows.
pub open spec fn imported_count_prefix(items: Seq<IonModel>, n: int) -> Option<u64>
    decreases n,
{
    if n <= 0 {
        Some(0)
    } else {
        match imported_count_prefix(items, n - 1) {
            None => None,
            Some(total) => {
                let import = items[n - 1];
                if struct_fields_of(import) is None {
                    Some(total)
                } else {
                    match field_of(import, FIELD_SYMBOL_TABLE_IMPORT_MAX_ID) {
                        None => None,
                        Some(v) => match int_of(v) {
                            None => None,
                            Some(max_id) => if max_id < 9 {
                                None
                            } else if total + (max_id - 9) > u64::MAX {
                                None
                            } else {
                                Some((total + (max_id - 9)) as u64)
                            },
                        },
                    }
                }
            },
        }
    }
}

/// The number of symbols an import list brings in.
pub open spec fn imported_count(items: Seq<IonModel>) -> Option<u64> {
    imported_count_prefix(items, items.len() as int)
}

/// The first local symbol id of a symbol table: after the system symbols
/// and every imported symbol.
pub open spec fn local_start_spec(fields: Seq<(u64, IonModel)>) -> Option<u64> {
    let count = match first_field(fields, FIELD_SYMBOL_TABLE_IMPORTS) {
        None => Some(0u64),
        Some(IonModel::Symbol(3)) => Some(0u64),
        Some(IonModel::List(imports)) => imported_count(imports),
        Some(_) => None,
    };
    match count {
        None => None,
        Some(c) => if 9 + c + 1 > u64::MAX {
            None
        } else {
            Some((9 + c + 1) as u64)
        },
    }
}

/// The number of symbols an import list brings in.
pub fn imported_symbol_count(imports: &[IonValue]) -> (r: Option<u64>)
    ensures
        r == imported_count(models(imports@)),
{
    let ghost ms = models(imports@);
    proof {
        lemma_models_index(imports@);
    }
    let mut total: u64 = 0;
    let mut i: usize = 0;
    while i < imports.len()
        invariant
            0 <= i <= imports@.len(),
            ms == models(imports@),
            ms.len() == imports@.len(),
            forall|k: int| 0 <= k < imports@.len() ==> #[trigger] ms[k] == imports@[k]@,
            imported_count_prefix(ms, i as int) == Some(total),
        decreases imports@.len() - i,
    {
        let import = &imports[i];
        if unwrap_struct(import).is_some() {
            let max_id = match struct_get(import, FIELD_SYMBOL_TABLE_IMPORT_MAX_ID) {
                None => {
                    proof { lemma_count_none_stays(ms, i + 1, ms.len() as int); }
                    return None;
                },
                Some(v) => match as_int(v) {
                    None => {
                        proof { lemma_count_none_stays(ms, i + 1, ms.len() as int); }
                        return None;
                    },
                    Some(m) => m,
                },
            };
            if max_id < 9 || (max_id - 9) as u64 > u64::MAX - total {
                proof { lemma_count_none_stays(ms, i + 1, ms.len() as int); }
                return None;
            }
            total = total + (max_id - 9) as u64;
        }
        i = i + 1;
    }
    Some(total)
}

pub proof fn lemma_count_none_stays(items: Seq<IonModel>, k: int, n: int)
    requires
        0 < k <= n,
        imported_count_prefix(items, k) is None,
    ensures
        imported_count_prefix(items, n) is None,
    decreases n - k,
{
    if n > k {
        lemma_count_none_stays(items, k, n - 1);
    }
}

/// The first local symbol id of a symbol table: system symbols, then every
/// imported range.
pub fn local_symbol_start(fields: &[(u64, IonValue)]) -> (r: Option<u64>)
    ensures
        r == local_start_spec(field_models(fields@)),
{
    let count = match struct_get_from_fields(fields, FIELD_SYMBOL_TABLE_IMPORTS) {
        None => 0u64,
        Some(IonValue::Symbol(3)) => 0u64,
        Some(IonValue::List(imports)) => match imported_symbol_count(imports.as_slice()) {
            Some(c) => c,
            None => {
                return None;
            },
        },
        Some(_) => {
            return None;
        },
    };
    if count > u64::MAX - 10 {
        return None;
    }
    Some(ION_SYSTEM_SYMBOL_COUNT + count + 1)
}

pub open spec fn count_some_max(imports: Seq<ImportView>) -> nat
    decreases imports.len(),
{
    if imports.len() == 0 {
        0
    } else {
        count_some_max(imports.subrange(0, imports.len() - 1)) + if imports[imports.len() - 1].max_id is Some {
            1nat
        } else {
            0nat
        }
    }
}

/// How far content symbol ids are shifted against the container's table:
/// nine system symbols for each import that declares a `max_id`.
pub fn import_symbol_id_shift(imports: &[SymbolTableImport]) -> (r: Option<u64>)
    ensures
        r is Some <==> 9 * count_some_max(import_views(imports@)) <= u64::MAX,
        r matches Some(v) ==> v == 9 * count_some_max(import_views(imports@)),
{
    let ghost iv = import_views(imports@);
    let mut shift: u64 = 0;
    let mut i: usize = 0;
    while i < imports.len()
        invariant
            0 <= i <= imports@.len(),
            iv == import_views(imports@),
            shift == 9 * count_some_max(iv.subrange(0, i as int)),
        decreases imports@.len() - i,
    {
        proof {
            assert(iv.subrange(0, i + 1).subrange(0, i as int) =~= iv.subrange(0, i as int));
            assert(iv[i as int] == imports@[i as int]@);
        }
        if imports[i].max_id.is_some() {
            if shift > u64::MAX - 9 {
                proof {
                    lemma_count_some_max_monotone(iv, i + 1, iv.len() as int);
                    assert(iv.subrange(0, iv.len() as int) =~= iv);
                }
                return None;
            }
            shift = shift + 9;
        }
        i = i + 1;
    }
    assert(iv.subrange(0, iv.len() as int) =~= iv);
    Some(shift)
}

pub proof fn lemma_count_some_max_monotone(s: Seq<ImportView>, i: int, j: int)
    requires
        0 <= i <= j <= s.len(),
    ensures
        count_some_max(s.subrange(0, i)) <= count_some_max(s.subrange(0, j)),
    decreases j - i,
{
    if j > i {
        lemma_count_some_max_monotone(s, i, j - 1);
        assert(s.subrange(0, j).subrange(0, j - 1) =~= s.subrange(0, j - 1));
    }
}

} // verus!
