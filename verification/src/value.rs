//! Reading fields and scalars out of decoded Ion values.
use vstd::prelude::*;
use crate::ion::{IonModel, IonValue, models, field_models, lemma_field_models_index, lemma_models_index, lemma_models_push, lemma_field_models_push};

verus! {

/// The fields of a struct, looking through annotation wrappers.
pub open spec fn struct_fields_of(m: IonModel) -> Option<Seq<(u64, IonModel)>>
    decreases m,
{
    match m {
        IonModel::Struct(fields) => Some(fields),
        IonModel::Annotation { value, .. } => struct_fields_of(*value),
        _ => None,
    }
}

/// The value of the first field named `id`.
pub open spec fn first_field(f: Seq<(u64, IonModel)>, id: u64) -> Option<IonModel>
    decreases f.len(),
{
    if f.len() == 0 {
        None
    } else if f[0].0 == id {
        Some(f[0].1)
    } else {
        first_field(f.subrange(1, f.len() as int), id)
    }
}

/// The value of the first field named `id` of a struct (through annotations).
pub open spec fn field_of(m: IonModel, id: u64) -> Option<IonModel> {
    match struct_fields_of(m) {
        Some(f) => first_field(f, id),
        None => None,
    }
}

pub open spec fn int_of(m: IonModel) -> Option<i64> {
    match m {
        IonModel::Int(i) => Some(i),
        _ => None,
    }
}

pub open spec fn string_of(m: IonModel) -> Option<Seq<char>> {
    match m {
        IonModel::String(s) => Some(s),
        _ => None,
    }
}

pub open spec fn symbol_of(m: IonModel) -> Option<u64> {
    match m {
        IonModel::Symbol(s) => Some(s),
        _ => None,
    }
}

/// `field_of` chained with `int_of`.
pub open spec fn int_field(m: IonModel, id: u64) -> Option<i64> {
    match field_of(m, id) {
        Some(v) => int_of(v),
        None => None,
    }
}

/// `field_of` chained with `symbol_of`.
pub open spec fn symbol_field(m: IonModel, id: u64) -> Option<u64> {
    match field_of(m, id) {
        Some(v) => symbol_of(v),
        None => None,
    }
}

/// `field_of` chained with `string_of`.
pub open spec fn string_field(m: IonModel, id: u64) -> Option<Seq<char>> {
    match field_of(m, id) {
        Some(v) => string_of(v),
        None => None,
    }
}

/// The items of a list or s-expression.
pub open spec fn items_of(m: IonModel) -> Option<Seq<IonModel>> {
    match m {
        IonModel::List(items) => Some(items),
        IonModel::SExp(items) => Some(items),
        _ => None,
    }
}

/// The items of a list (not an s-expression).
pub open spec fn list_of(m: IonModel) -> Option<Seq<IonModel>> {
    match m {
        IonModel::List(items) => Some(items),
        _ => None,
    }
}

pub open spec fn opt_model(r: Option<&IonValue>) -> Option<IonModel> {
    match r {
        Some(v) => Some(v.model()),
        None => None,
    }
}

pub proof fn lemma_first_field_skip(f: Seq<(u64, IonModel)>, id: u64, i: int)
    requires
        0 <= i <= f.len(),
        forall|j: int| 0 <= j < i ==> f[j].0 != id,
    ensures
        first_field(f, id) == first_field(f.subrange(i, f.len() as int), id),
    decreases i,
{
    if i > 0 {
        let g = f.subrange(1, f.len() as int);
        assert forall|j: int| 0 <= j < i - 1 implies g[j].0 != id by {
            assert(g[j] == f[j + 1]);
        }
        lemma_first_field_skip(g, id, i - 1);
        assert(g.subrange(i - 1, g.len() as int) =~= f.subrange(i, f.len() as int));
    } else {
        assert(f.subrange(0, f.len() as int) =~= f);
    }
}

/// The first field named `id` among `fields`.
pub fn struct_get_from_fields(fields: &[(u64, IonValue)], id: u64) -> (r: Option<&IonValue>)
    ensures
        opt_model(r) == first_field(field_models(fields@), id),
{
    let ghost fm = field_models(fields@);
    proof {
        lemma_field_models_index(fields@);
    }
    let mut i: usize = 0;
    while i < fields.len()
        invariant
            fm == field_models(fields@),
            fm.len() == fields@.len(),
            forall|k: int| 0 <= k < fields@.len() ==> #[trigger] fm[k] == (fields@[k].0, fields@[k].1.model()),
            0 <= i <= fields@.len(),
            forall|j: int| 0 <= j < i ==> fm[j].0 != id,
        decreases fields@.len() - i,
    {
        if fields[i].0 == id {
            proof {
                lemma_first_field_skip(fm, id, i as int);
                let rest = fm.subrange(i as int, fm.len() as int);
                assert(rest[0] == fm[i as int]);
            }
            return Some(&fields[i].1);
        }
        i = i + 1;
    }
    proof {
        lemma_first_field_skip(fm, id, i as int);
        assert(fm.subrange(i as int, fm.len() as int).len() == 0);
    }
    None
}

/// The fields of a struct, looking through annotation wrappers.
pub fn unwrap_struct(value: &IonValue) -> (r: Option<&[(u64, IonValue)]>)
    ensures
        match r {
            Some(f) => struct_fields_of(value@) == Some(field_models(f@)),
            None => struct_fields_of(value@) is None,
        },
    decreases value,
{
    match value {
        IonValue::Struct(fields) => Some(fields.as_slice()),
        IonValue::Annotation { value: inner, .. } => unwrap_struct(inner),
        _ => None,
    }
}

/// Same as [`unwrap_struct`].
pub fn struct_fields(value: &IonValue) -> (r: Option<&[(u64, IonValue)]>)
    ensures
        match r {
            Some(f) => struct_fields_of(value@) == Some(field_models(f@)),
            None => struct_fields_of(value@) is None,
        },
{
    unwrap_struct(value)
}

/// The first field named `id` of a struct value (through annotations).
pub fn struct_get(value: &IonValue, id: u64) -> (r: Option<&IonValue>)
    ensures
        opt_model(r) == field_of(value@, id),
{
    match unwrap_struct(value) {
        Some(fields) => struct_get_from_fields(fields, id),
        None => None,
    }
}

pub fn as_int(value: &IonValue) -> (r: Option<i64>)
    ensures
        r == int_of(value@),
{
    match value {
        IonValue::Int(i) => Some(*i),
        _ => None,
    }
}

pub fn as_string(value: &IonValue) -> (r: Option<&str>)
    ensures
        match r {
            Some(s) => string_of(value@) == Some(s@),
            None => string_of(value@) is None,
        },
{
    match value {
        IonValue::String(s) => Some(s.as_str()),
        _ => None,
    }
}

/// The symbol id of a symbol value.
pub fn ion_symbol_id(value: &IonValue) -> (r: Option<u64>)
    ensures
        r == symbol_of(value@),
{
    match value {
        IonValue::Symbol(symbol) => Some(*symbol),
        _ => None,
    }
}

/// The integer value of field `id`.
pub fn int_field_of(value: &IonValue, id: u64) -> (r: Option<i64>)
    ensures
        r == int_field(value@, id),
{
    match struct_get(value, id) {
        Some(v) => as_int(v),
        None => None,
    }
}

/// The symbol id held by field `id`.
pub fn symbol_field_of(value: &IonValue, id: u64) -> (r: Option<u64>)
    ensures
        r == symbol_field(value@, id),
{
    match struct_get(value, id) {
        Some(v) => ion_symbol_id(v),
        None => None,
    }
}

/// The string held by field `id`.
pub fn string_field_of(value: &IonValue, id: u64) -> (r: Option<&str>)
    ensures
        match r {
            Some(s) => string_field(value@, id) == Some(s@),
            None => string_field(value@, id) is None,
        },
{
    match struct_get(value, id) {
        Some(v) => as_string(v),
        None => None,
    }
}

/// The items of a list or s-expression value.
pub fn list_items(value: &IonValue) -> (r: Option<&Vec<IonValue>>)
    ensures
        match r {
            Some(items) => items_of(value@) == Some(models(items@)),
            None => items_of(value@) is None,
        },
{
    match value {
        IonValue::List(items) => Some(items),
        IonValue::SExp(items) => Some(items),
        _ => None,
    }
}

/// The name of the kind of an Ion value.
pub open spec fn kind_name(m: IonModel) -> Seq<char> {
    match m {
        IonModel::Null => "null"@,
        IonModel::Nop => "nop"@,
        IonModel::Bool(_) => "bool"@,
        IonModel::Int(_) => "int"@,
        IonModel::Float(_) => "float"@,
        IonModel::Decimal(_) => "decimal"@,
        IonModel::Timestamp(_) => "timestamp"@,
        IonModel::Symbol(_) => "symbol"@,
        IonModel::String(_) => "string"@,
        IonModel::Clob(_) => "clob"@,
        IonModel::Blob(_) => "blob"@,
        IonModel::List(_) => "list"@,
        IonModel::SExp(_) => "sexp"@,
        IonModel::Struct(_) => "struct"@,
        IonModel::Annotation { .. } => "annotation"@,
        IonModel::Reserved { .. } => "reserved"@,
    }
}

/// The name of the kind of an Ion value.
pub fn ion_value_kind(value: &IonValue) -> (r: &'static str)
    ensures
        r@ == kind_name(value@),
{
    match value {
        IonValue::Null => "null",
        IonValue::Nop => "nop",
        IonValue::Bool(_) => "bool",
        IonValue::Int(_) => "int",
        IonValue::Float(_) => "float",
        IonValue::Decimal(_) => "decimal",
        IonValue::Timestamp(_) => "timestamp",
        IonValue::Symbol(_) => "symbol",
        IonValue::String(_) => "string",
        IonValue::Clob(_) => "clob",
        IonValue::Blob(_) => "blob",
        IonValue::List(_) => "list",
        IonValue::SExp(_) => "sexp",
        IonValue::Struct(_) => "struct",
        IonValue::Annotation { .. } => "annotation",
        IonValue::Reserved { .. } => "reserved",
    }
}


/// A copy of an Ion value.
pub fn copy_value(v: &IonValue) -> (r: IonValue)
    ensures
        r@ == v@,
    decreases v,
{
    match v {
        IonValue::Null => IonValue::Null,
        IonValue::Nop => IonValue::Nop,
        IonValue::Bool(b) => IonValue::Bool(*b),
        IonValue::Int(i) => IonValue::Int(*i),
        IonValue::Float(b) => IonValue::Float(copy_bytes(b)),
        IonValue::Decimal(b) => IonValue::Decimal(copy_bytes(b)),
        IonValue::Timestamp(b) => IonValue::Timestamp(copy_bytes(b)),
        IonValue::Symbol(s) => IonValue::Symbol(*s),
        IonValue::String(s) => IonValue::String(s.as_str().to_owned()),
        IonValue::Clob(b) => IonValue::Clob(copy_bytes(b)),
        IonValue::Blob(b) => IonValue::Blob(copy_bytes(b)),
        IonValue::List(items) => IonValue::List(copy_values(items)),
        IonValue::SExp(items) => IonValue::SExp(copy_values(items)),
        IonValue::Struct(fields) => IonValue::Struct(copy_fields(fields)),
        IonValue::Annotation { symbols, value } => {
            let mut syms: Vec<u64> = Vec::new();
            let mut i: usize = 0;
            while i < symbols.len()
                invariant
                    0 <= i <= symbols@.len(),
                    syms@ == symbols@.subrange(0, i as int),
                decreases symbols@.len() - i,
            {
                syms.push(symbols[i]);
                assert(syms@ =~= symbols@.subrange(0, i + 1));
                i = i + 1;
            }
            assert(syms@ =~= symbols@);
            let inner = copy_value(value);
            IonValue::Annotation { symbols: syms, value: Box::new(inner) }
        },
        IonValue::Reserved { type_descriptor, bytes } => IonValue::Reserved {
            type_descriptor: *type_descriptor,
            bytes: copy_bytes(bytes),
        },
    }
}

/// A copy of a byte vector.
pub fn copy_bytes(b: &Vec<u8>) -> (r: Vec<u8>)
    ensures
        r@ == b@,
{
    let mut out: Vec<u8> = Vec::new();
    let mut i: usize = 0;
    while i < b.len()
        invariant
            0 <= i <= b@.len(),
            out@ == b@.subrange(0, i as int),
        decreases b@.len() - i,
    {
        out.push(b[i]);
        assert(out@ =~= b@.subrange(0, i + 1));
        i = i + 1;
    }
    assert(out@ =~= b@);
    out
}

/// Copies of a sequence of values.
pub fn copy_values(items: &Vec<IonValue>) -> (r: Vec<IonValue>)
    ensures
        models(r@) == models(items@),
    decreases items,
{
    let mut out: Vec<IonValue> = Vec::new();
    let mut i: usize = 0;
    while i < items.len()
        invariant
            0 <= i <= items@.len(),
            models(out@) == models(items@.subrange(0, i as int)),
        decreases items@.len() - i,
    {
        assert(decreases_to!(items => items@[i as int]));
        let c = copy_value(&items[i]);
        proof {
            lemma_models_push(out@, c);
            lemma_models_push(items@.subrange(0, i as int), items@[i as int]);
            assert(items@.subrange(0, i as int).push(items@[i as int]) =~= items@.subrange(0, i + 1));
        }
        out.push(c);
        i = i + 1;
    }
    assert(items@.subrange(0, items@.len() as int) =~= items@);
    out
}

/// Copies of a sequence of struct fields.
pub fn copy_fields(fields: &Vec<(u64, IonValue)>) -> (r: Vec<(u64, IonValue)>)
    ensures
        field_models(r@) == field_models(fields@),
    decreases fields,
{
    let mut out: Vec<(u64, IonValue)> = Vec::new();
    let mut i: usize = 0;
    while i < fields.len()
        invariant
            0 <= i <= fields@.len(),
            field_models(out@) == field_models(fields@.subrange(0, i as int)),
        decreases fields@.len() - i,
    {
        assert(decreases_to!(fields => fields@[i as int].1));
        let c = copy_value(&fields[i].1);
        let f = (fields[i].0, c);
        proof {
            lemma_field_models_push(out@, f);
            lemma_field_models_push(fields@.subrange(0, i as int), fields@[i as int]);
            assert(fields@.subrange(0, i as int).push(fields@[i as int]) =~= fields@.subrange(0, i + 1));
        }
        out.push(f);
        i = i + 1;
    }
    assert(fields@.subrange(0, fields@.len() as int) =~= fields@);
    out
}

} // verus!
