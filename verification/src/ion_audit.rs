//! Content-free summaries of Ion values, for inspecting one source path of
//! a book without dumping it: each value is described by its kind and
//! sizes, strings by length and digest, symbols by id; private text and
//! symbol names only when asked for.
use vstd::prelude::*;
use crate::audit_path::{IonAuditPathToken, strip_annotations, strip_value};
use crate::decode::opt_string_view;
use crate::digest::{sha256, sha256_digest};
use crate::ion::{IonModel, IonValue, models, field_models, lemma_models_index, lemma_field_models_index};
use crate::media::{hex_lower, hex_spec};
use crate::symbols::{SymbolTable, SymbolTableView};
use crate::text::{chars_of, owned};
use crate::value::{kind_name, ion_value_kind};

verus! {

broadcast use vstd::laws_cmp::group_laws_cmp;

/// How many fields of a struct are summarised.
pub const SUMMARY_FIELD_LIMIT: usize = 32;

/// A summary of an Ion value.
#[derive(Debug)]
pub enum IonAuditSummary {
    Null,
    Nop,
    Bool(bool),
    Int(i64),
    /// A symbol id; with private names asked for, its name if the table has
    /// one.
    Symbol { symbol_id: u64, resolved_name: Option<Option<String>> },
    /// A float, decimal or timestamp, by its encoded length.
    Encoded { kind: String, byte_length: usize },
    /// A string, by length and digest.
    Text { unicode_scalar_count: usize, sha256_raw_audit_only: String, private_text: Option<String> },
    /// A clob, blob or reserved value, by length and digest.
    Bytes { kind: String, byte_length: usize, sha256_audit_only: String },
    /// A list or s-expression, by its item count.
    Items { kind: String, item_count: usize },
    /// A struct: its field count and its first fields, summarised.
    Struct { field_count: usize, fields: Vec<(u64, IonAuditSummary)>, fields_truncated: bool },
    Annotation { annotation_symbol_ids: Vec<u64>, value: Box<IonAuditSummary> },
}

pub enum SummaryView {
    Null,
    Nop,
    Bool(bool),
    Int(i64),
    Symbol { symbol_id: u64, resolved_name: Option<Option<Seq<char>>> },
    Encoded { kind: Seq<char>, byte_length: usize },
    Text { unicode_scalar_count: usize, sha256_raw_audit_only: Seq<char>, private_text: Option<Seq<char>> },
    Bytes { kind: Seq<char>, byte_length: usize, sha256_audit_only: Seq<char> },
    Items { kind: Seq<char>, item_count: usize },
    Struct { field_count: usize, fields: Seq<(u64, SummaryView)>, fields_truncated: bool },
    Annotation { annotation_symbol_ids: Seq<u64>, value: Box<SummaryView> },
}

impl IonAuditSummary {
    pub open spec fn summary_view(self) -> SummaryView
        decreases self,
    {
        match self {
            IonAuditSummary::Null => SummaryView::Null,
            IonAuditSummary::Nop => SummaryView::Nop,
            IonAuditSummary::Bool(b) => SummaryView::Bool(b),
            IonAuditSummary::Int(i) => SummaryView::Int(i),
            IonAuditSummary::Symbol { symbol_id, resolved_name } => SummaryView::Symbol {
                symbol_id,
                resolved_name: match resolved_name {
                    Some(n) => Some(opt_string_view(n)),
                    None => None,
                },
            },
            IonAuditSummary::Encoded { kind, byte_length } => SummaryView::Encoded { kind: kind@, byte_length },
            IonAuditSummary::Text { unicode_scalar_count, sha256_raw_audit_only, private_text } => SummaryView::Text {
                unicode_scalar_count,
                sha256_raw_audit_only: sha256_raw_audit_only@,
                private_text: opt_string_view(private_text),
            },
            IonAuditSummary::Bytes { kind, byte_length, sha256_audit_only } => SummaryView::Bytes {
                kind: kind@,
                byte_length,
                sha256_audit_only: sha256_audit_only@,
            },
            IonAuditSummary::Items { kind, item_count } => SummaryView::Items { kind: kind@, item_count },
            IonAuditSummary::Struct { field_count, fields, fields_truncated } => SummaryView::Struct {
                field_count,
                fields: summary_fields(fields@),
                fields_truncated,
            },
            IonAuditSummary::Annotation { annotation_symbol_ids, value } => SummaryView::Annotation {
                annotation_symbol_ids: annotation_symbol_ids@,
                value: Box::new((*value).summary_view()),
            },
        }
    }
}

pub open spec fn summary_fields(s: Seq<(u64, IonAuditSummary)>) -> Seq<(u64, SummaryView)>
    decreases s,
{
    if s.len() == 0 {
        Seq::empty()
    } else {
        summary_fields(s.subrange(0, s.len() - 1)).push((s[s.len() - 1].0, s[s.len() - 1].1.summary_view()))
    }
}

/// The summary of `m`. Private text and symbol names go in only when
/// asked for; `names` are the symbol names of the value's container.
pub open spec fn summary_spec(m: IonModel, private_text: bool, names: Option<Map<u64, Seq<char>>>, private_names: bool) -> SummaryView
    decreases m,
{
    match m {
        IonModel::Null => SummaryView::Null,
        IonModel::Nop => SummaryView::Nop,
        IonModel::Bool(b) => SummaryView::Bool(b),
        IonModel::Int(i) => SummaryView::Int(i),
        IonModel::Symbol(id) => SummaryView::Symbol {
            symbol_id: id,
            resolved_name: if private_names {
                Some(match names {
                    Some(n) => if n.contains_key(id) { Some(n[id]) } else { None },
                    None => None,
                })
            } else {
                None
            },
        },
        IonModel::Float(b) => SummaryView::Encoded { kind: "float"@, byte_length: b.len() as usize },
        IonModel::Decimal(b) => SummaryView::Encoded { kind: "decimal"@, byte_length: b.len() as usize },
        IonModel::Timestamp(b) => SummaryView::Encoded { kind: "timestamp"@, byte_length: b.len() as usize },
        IonModel::String(t) => SummaryView::Text {
            unicode_scalar_count: t.len() as usize,
            sha256_raw_audit_only: hex_spec(sha256(vstd::utf8::encode_utf8(t))),
            private_text: if private_text { Some(t) } else { None },
        },
        IonModel::Clob(b) => SummaryView::Bytes { kind: "clob"@, byte_length: b.len() as usize, sha256_audit_only: hex_spec(sha256(b)) },
        IonModel::Blob(b) => SummaryView::Bytes { kind: "blob"@, byte_length: b.len() as usize, sha256_audit_only: hex_spec(sha256(b)) },
        IonModel::Reserved { bytes, .. } => SummaryView::Bytes {
            kind: "reserved"@,
            byte_length: bytes.len() as usize,
            sha256_audit_only: hex_spec(sha256(bytes)),
        },
        IonModel::List(items) => SummaryView::Items { kind: "list"@, item_count: items.len() as usize },
        IonModel::SExp(items) => SummaryView::Items { kind: "sexp"@, item_count: items.len() as usize },
        IonModel::Struct(fields) => SummaryView::Struct {
            field_count: fields.len() as usize,
            fields: summary_fields_spec(fields, if fields.len() > 32 { 32 } else { fields.len() as int }, private_text, names, private_names),
            fields_truncated: fields.len() > 32,
        },
        IonModel::Annotation { symbols, value } => SummaryView::Annotation {
            annotation_symbol_ids: symbols,
            value: Box::new(summary_spec(*value, private_text, names, private_names)),
        },
    }
}

/// The summaries of the first `k` fields.
pub open spec fn summary_fields_spec(
    fields: Seq<(u64, IonModel)>,
    k: int,
    private_text: bool,
    names: Option<Map<u64, Seq<char>>>,
    private_names: bool,
) -> Seq<(u64, SummaryView)>
    decreases fields, k,
{
    if k <= 0 || k > fields.len() {
        Seq::empty()
    } else {
        proof {
            assert(decreases_to!(fields => fields[k - 1].1));
        }
        summary_fields_spec(fields, k - 1, private_text, names, private_names)
            .push((fields[k - 1].0, summary_spec(fields[k - 1].1, private_text, names, private_names)))
    }
}

pub open spec fn table_names(t: Option<&SymbolTable>) -> Option<Map<u64, Seq<char>>> {
    match t {
        Some(x) => Some(x@.names),
        None => None,
    }
}

proof fn lemma_summary_fields_push(s: Seq<(u64, IonAuditSummary)>, x: (u64, IonAuditSummary))
    ensures
        summary_fields(s.push(x)) == summary_fields(s).push((x.0, x.1.summary_view())),
{
    assert(s.push(x).subrange(0, s.len() as int) =~= s);
}

fn symbol_name(symbols: Option<&SymbolTable>, id: u64) -> (r: Option<String>)
    ensures
        opt_string_view(r) == match table_names(symbols) {
            Some(n) => if n.contains_key(id) { Some(n[id]) } else { None },
            None => None,
        },
{
    broadcast use vstd::std_specs::btree::group_btree_axioms;
    match symbols {
        Some(t) => match t.names.get(&id) {
            Some(name) => Some(owned(name.as_str())),
            None => None,
        },
        None => None,
    }
}

fn digest_text(bytes: &[u8]) -> (r: String)
    ensures
        r@ == hex_spec(sha256(bytes@)),
{
    let d = sha256_digest(bytes);
    hex_lower(d.as_slice())
}

fn copy_u64s(v: &Vec<u64>) -> (r: Vec<u64>)
    ensures
        r@ == v@,
{
    let mut out: Vec<u64> = Vec::new();
    let mut i: usize = 0;
    while i < v.len()
        invariant
            0 <= i <= v@.len(),
            out@ == v@.take(i as int),
        decreases v@.len() - i,
    {
        out.push(v[i]);
        assert(out@ =~= v@.take(i + 1));
        i = i + 1;
    }
    assert(v@.take(v@.len() as int) =~= v@);
    out
}

fn summarize_fields(
    fields: &Vec<(u64, IonValue)>,
    limit: usize,
    include_private_text: bool,
    symbols: Option<&SymbolTable>,
    include_private_symbol_names: bool,
) -> (r: Vec<(u64, IonAuditSummary)>)
    requires
        limit <= fields@.len(),
    ensures
        summary_fields(r@) == summary_fields_spec(field_models(fields@), limit as int, include_private_text, table_names(symbols), include_private_symbol_names),
    decreases fields,
{
    let ghost fs = field_models(fields@);
    proof {
        lemma_field_models_index(fields@);
    }
    let mut out: Vec<(u64, IonAuditSummary)> = Vec::new();
    let mut i: usize = 0;
    while i < limit
        invariant
            0 <= i <= limit <= fields@.len(),
            fs == field_models(fields@),
            fs.len() == fields@.len(),
            forall|k: int| 0 <= k < fields@.len() ==> #[trigger] fs[k] == (fields@[k].0, fields@[k].1@),
            summary_fields(out@) == summary_fields_spec(fs, i as int, include_private_text, table_names(symbols), include_private_symbol_names),
        decreases limit - i,
    {
        assert(decreases_to!(fields => fields@[i as int].1));
        let s = ion_audit_value_summary(&fields[i].1, include_private_text, symbols, include_private_symbol_names);
        let ghost before = out@;
        out.push((fields[i].0, s));
        proof {
            lemma_summary_fields_push(before, out@[out@.len() - 1]);
            assert(out@ =~= before.push(out@[out@.len() - 1]));
        }
        i = i + 1;
    }
    out
}

/// Summarises `value`; private text and symbol names go in only when asked
/// for.
pub fn ion_audit_value_summary(
    value: &IonValue,
    include_private_text: bool,
    symbols: Option<&SymbolTable>,
    include_private_symbol_names: bool,
) -> (r: IonAuditSummary)
    ensures
        r.summary_view() == summary_spec(value@, include_private_text, table_names(symbols), include_private_symbol_names),
    decreases value,
{
    match value {
        IonValue::Null => IonAuditSummary::Null,
        IonValue::Nop => IonAuditSummary::Nop,
        IonValue::Bool(b) => IonAuditSummary::Bool(*b),
        IonValue::Int(i) => IonAuditSummary::Int(*i),
        IonValue::Symbol(id) => IonAuditSummary::Symbol {
            symbol_id: *id,
            resolved_name: if include_private_symbol_names { Some(symbol_name(symbols, *id)) } else { None },
        },
        IonValue::Float(b) => IonAuditSummary::Encoded { kind: owned("float"), byte_length: b.len() },
        IonValue::Decimal(b) => IonAuditSummary::Encoded { kind: owned("decimal"), byte_length: b.len() },
        IonValue::Timestamp(b) => IonAuditSummary::Encoded { kind: owned("timestamp"), byte_length: b.len() },
        IonValue::String(t) => IonAuditSummary::Text {
            unicode_scalar_count: chars_of(t.as_str()).len(),
            sha256_raw_audit_only: digest_text(t.as_str().as_bytes()),
            private_text: if include_private_text { Some(owned(t.as_str())) } else { None },
        },
        IonValue::Clob(b) => IonAuditSummary::Bytes { kind: owned("clob"), byte_length: b.len(), sha256_audit_only: digest_text(b.as_slice()) },
        IonValue::Blob(b) => IonAuditSummary::Bytes { kind: owned("blob"), byte_length: b.len(), sha256_audit_only: digest_text(b.as_slice()) },
        IonValue::Reserved { bytes, .. } => IonAuditSummary::Bytes {
            kind: owned("reserved"),
            byte_length: bytes.len(),
            sha256_audit_only: digest_text(bytes.as_slice()),
        },
        IonValue::List(items) => {
            proof {
                lemma_models_index(items@);
            }
            IonAuditSummary::Items { kind: owned("list"), item_count: items.len() }
        },
        IonValue::SExp(items) => {
            proof {
                lemma_models_index(items@);
            }
            IonAuditSummary::Items { kind: owned("sexp"), item_count: items.len() }
        },
        IonValue::Struct(fields) => {
            proof {
                lemma_field_models_index(fields@);
            }
            let limit = if fields.len() > SUMMARY_FIELD_LIMIT { SUMMARY_FIELD_LIMIT } else { fields.len() };
            let out = summarize_fields(fields, limit, include_private_text, symbols, include_private_symbol_names);
            IonAuditSummary::Struct { field_count: fields.len(), fields: out, fields_truncated: fields.len() > SUMMARY_FIELD_LIMIT }
        },
        IonValue::Annotation { symbols: ids, value: inner } => IonAuditSummary::Annotation {
            annotation_symbol_ids: copy_u64s(ids),
            value: Box::new(ion_audit_value_summary(inner, include_private_text, symbols, include_private_symbol_names)),
        },
    }
}

/// The position of the first field `f`.
pub open spec fn first_position(fields: Seq<(u64, IonModel)>, f: u64) -> Option<int>
    decreases fields.len(),
{
    if fields.len() == 0 {
        None
    } else {
        match first_position(fields.drop_last(), f) {
            Some(p) => Some(p),
            None => if fields.last().0 == f { Some(fields.len() - 1) } else { None },
        }
    }
}

/// The fields other than the one at `p`, among the first `k`.
pub open spec fn other_fields(fields: Seq<(u64, IonModel)>, p: int, k: int) -> Seq<(IonAuditPathToken, IonModel)>
    decreases k,
{
    if k <= 0 {
        Seq::empty()
    } else {
        let before = other_fields(fields, p, k - 1);
        if k - 1 == p { before } else { before.push((IonAuditPathToken::Field(fields[k - 1].0), fields[k - 1].1)) }
    }
}

/// The items from `start` up to `k` other than the one at `i`.
pub open spec fn item_window(items: Seq<IonModel>, i: int, start: int, k: int) -> Seq<(IonAuditPathToken, IonModel)>
    decreases k - start,
{
    if k <= start {
        Seq::empty()
    } else {
        let before = item_window(items, i, start, k - 1);
        if k - 1 == i { before } else { before.push((IonAuditPathToken::Index((k - 1) as usize), items[k - 1])) }
    }
}

/// One step down a source path: the selected child and its siblings (all
/// other fields of a struct; up to two items on either side in a list).
pub open spec fn step_spec(m: IonModel, t: IonAuditPathToken) -> Option<(IonModel, Seq<(IonAuditPathToken, IonModel)>)> {
    match strip_annotations(m) {
        IonModel::Struct(fields) => match t {
            IonAuditPathToken::Field(f) => match first_position(fields, f) {
                Some(p) => Some((fields[p].1, other_fields(fields, p, fields.len() as int))),
                None => None,
            },
            IonAuditPathToken::Index(_) => None,
        },
        IonModel::List(items) => match t {
            IonAuditPathToken::Index(i) => if i < items.len() {
                let start = if i >= 2 { i - 2 } else { 0 };
                let end = if i + 3 <= items.len() { i + 3 } else { items.len() as int };
                Some((items[i as int], item_window(items, i as int, start, end)))
            } else {
                None
            },
            IonAuditPathToken::Field(_) => None,
        },
        IonModel::SExp(items) => match t {
            IonAuditPathToken::Index(i) => if i < items.len() {
                let start = if i >= 2 { i - 2 } else { 0 };
                let end = if i + 3 <= items.len() { i + 3 } else { items.len() as int };
                Some((items[i as int], item_window(items, i as int, start, end)))
            } else {
                None
            },
            IonAuditPathToken::Field(_) => None,
        },
        _ => None,
    }
}

pub open spec fn edge_views(s: Seq<(IonAuditPathToken, &IonValue)>) -> Seq<(IonAuditPathToken, IonModel)> {
    s.map_values(|e: (IonAuditPathToken, &IonValue)| (e.0, e.1@))
}

pub open spec fn step_view(r: Option<(&IonValue, Vec<(IonAuditPathToken, &IonValue)>)>) -> Option<(IonModel, Seq<(IonAuditPathToken, IonModel)>)> {
    match r {
        Some((v, s)) => Some((v@, edge_views(s@))),
        None => None,
    }
}

fn list_step<'a>(items: &'a Vec<IonValue>, i: usize) -> (r: Option<(&'a IonValue, Vec<(IonAuditPathToken, &'a IonValue)>)>)
    ensures
        step_view(r) == if i < items@.len() {
            let ms = models(items@);
            let start = if i >= 2 { i - 2 } else { 0 };
            let end = if i + 3 <= ms.len() { i + 3 } else { ms.len() as int };
            Some((ms[i as int], item_window(ms, i as int, start, end)))
        } else {
            None
        },
{
    let ghost ms = models(items@);
    proof {
        lemma_models_index(items@);
    }
    if i >= items.len() {
        return None;
    }
    let start = if i >= 2 { i - 2 } else { 0 };
    let end = if items.len() - i > 3 { i + 3 } else { items.len() };
    let mut siblings: Vec<(IonAuditPathToken, &IonValue)> = Vec::new();
    let mut k = start;
    while k < end
        invariant
            start <= k <= end <= items@.len(),
            i < items@.len(),
            ms == models(items@),
            ms.len() == items@.len(),
            forall|j: int| 0 <= j < items@.len() ==> #[trigger] ms[j] == items@[j]@,
            edge_views(siblings@) == item_window(ms, i as int, start as int, k as int),
        decreases end - k,
    {
        if k != i {
            let ghost before = siblings@;
            siblings.push((IonAuditPathToken::Index(k), &items[k]));
            assert(edge_views(siblings@) =~= edge_views(before).push((IonAuditPathToken::Index(k), ms[k as int])));
        }
        k = k + 1;
    }
    Some((&items[i], siblings))
}

proof fn lemma_strip_twice(m: IonModel)
    ensures
        strip_annotations(strip_annotations(m)) == strip_annotations(m),
    decreases m,
{
    if let IonModel::Annotation { value, .. } = m {
        lemma_strip_twice(*value);
    }
}

fn struct_step<'a>(fields: &'a Vec<(u64, IonValue)>, f: u64) -> (r: Option<(&'a IonValue, Vec<(IonAuditPathToken, &'a IonValue)>)>)
    ensures
        step_view(r) == match first_position(field_models(fields@), f) {
            Some(p) => Some((field_models(fields@)[p].1, other_fields(field_models(fields@), p, fields@.len() as int))),
            None => None,
        },
{
    let ghost fs = field_models(fields@);
    proof {
        lemma_field_models_index(fields@);
    }
    let mut selected: Option<usize> = None;
    let mut i: usize = 0;
    while i < fields.len()
        invariant
            0 <= i <= fields@.len(),
            fs == field_models(fields@),
            fs.len() == fields@.len(),
            forall|k: int| 0 <= k < fields@.len() ==> #[trigger] fs[k] == (fields@[k].0, fields@[k].1@),
            match selected {
                Some(p) => first_position(fs.take(i as int), f) == Some(p as int) && p < i,
                None => first_position(fs.take(i as int), f) is None,
            },
        decreases fields@.len() - i,
    {
        proof {
            assert(fs.take(i + 1).drop_last() =~= fs.take(i as int));
            assert(fs.take(i + 1).last() == fs[i as int]);
        }
        if selected.is_none() && fields[i].0 == f {
            selected = Some(i);
        }
        i = i + 1;
    }
    assert(fs.take(fs.len() as int) =~= fs);
    let p = match selected {
        Some(p) => p,
        None => return None,
    };
    let mut siblings: Vec<(IonAuditPathToken, &IonValue)> = Vec::new();
    let mut k: usize = 0;
    while k < fields.len()
        invariant
            0 <= k <= fields@.len(),
            p < fields@.len(),
            fs == field_models(fields@),
            fs.len() == fields@.len(),
            forall|j: int| 0 <= j < fields@.len() ==> #[trigger] fs[j] == (fields@[j].0, fields@[j].1@),
            edge_views(siblings@) == other_fields(fs, p as int, k as int),
        decreases fields@.len() - k,
    {
        if k != p {
            let ghost before = siblings@;
            siblings.push((IonAuditPathToken::Field(fields[k].0), &fields[k].1));
            assert(edge_views(siblings@) =~= edge_views(before).push((IonAuditPathToken::Field(fs[k as int].0), fs[k as int].1)));
        }
        k = k + 1;
    }
    Some((&fields[p].1, siblings))
}

/// Steps from `value` along `token`: the selected child and its siblings.
pub fn ion_audit_step<'a>(value: &'a IonValue, token: IonAuditPathToken) -> (r: Option<(&'a IonValue, Vec<(IonAuditPathToken, &'a IonValue)>)>)
    ensures
        match step_spec(value@, token) {
            Some((child, siblings)) => r matches Some((x, s)) && x@ == child && edge_views(s@) == siblings,
            None => r is None,
        },
{
    let stripped = strip_value(value);
    proof {
        lemma_strip_twice(value@);
        assert(step_spec(value@, token) == step_spec(stripped@, token));
        assert(strip_annotations(stripped@) == stripped@);
    }
    let r: Option<(&'a IonValue, Vec<(IonAuditPathToken, &'a IonValue)>)> = match stripped {
        IonValue::Struct(fields) => {
            proof {
                lemma_field_models_index(fields@);
            }
            assert(stripped@ == IonModel::Struct(field_models(fields@)));
            match token {
                IonAuditPathToken::Field(f) => {
                    let x = struct_step(fields, f);
                    assert(step_spec(stripped@, token) == step_view(x));
                    x
                },
                IonAuditPathToken::Index(_) => {
                    assert(step_spec(stripped@, token) is None);
                    None
                },
            }
        },
        IonValue::List(items) => {
            proof {
                lemma_models_index(items@);
            }
            assert(stripped@ == IonModel::List(models(items@)));
            match token {
                IonAuditPathToken::Index(i) => {
                    let x = list_step(items, i);
                    assert(step_spec(stripped@, token) == step_view(x));
                    x
                },
                IonAuditPathToken::Field(_) => {
                    assert(step_spec(stripped@, token) is None);
                    None
                },
            }
        },
        IonValue::SExp(items) => {
            proof {
                lemma_models_index(items@);
            }
            assert(stripped@ == IonModel::SExp(models(items@)));
            match token {
                IonAuditPathToken::Index(i) => {
                    let x = list_step(items, i);
                    assert(step_spec(stripped@, token) == step_view(x));
                    x
                },
                IonAuditPathToken::Field(_) => {
                    assert(step_spec(stripped@, token) is None);
                    None
                },
            }
        },
        _ => {
            assert(!(stripped@ is Struct) && !(stripped@ is List) && !(stripped@ is SExp));
            assert(step_spec(stripped@, token) is None);
            None
        },
    };
    r
}

} // verus!
