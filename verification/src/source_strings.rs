//! An inventory of the decoded Ion strings in a book's fragment payloads.
//!
//! Each string is recorded with where it sits (fragment, numeric source
//! path, enclosing field ids), whether it is an entry of a string pool
//! (`$145` fragments list their strings under `$146`), the content
//! references that name it, and which private queries it matches. Rows carry
//! the string's length and digest; the text itself only when asked for.
use std::collections::BTreeMap;
use vstd::prelude::*;
use crate::audit_path::{IonAuditPathToken, format_ion_audit_path, format_path_spec};
use crate::content::{resolve_string_reference, resolve_ref_spec, FIELD_FRAGMENT_STRING_INDEX};
use crate::decode::{opt_string_view, FIELD_TEXT_VALUES, FIELD_FRAGMENT_ID};
use crate::ion::{IonModel, IonValue, models, field_models, lemma_models_index, lemma_field_models_index};
use crate::native::table_views;
use crate::strset::{StringSet, string_views, sorted_unique};
use crate::text::{chars_of, chars_contains, contains_run, str_eq, owned};
use crate::value::{symbol_field, int_field, symbol_field_of};
use crate::text::{decimal, decimal_into, string_from_chars};
use crate::nav_index::{ends_with, chars_end_with};
use crate::digest::{sha256, sha256_digest};
use crate::media::{hex_lower, hex_spec};
use crate::error::{AmazonKfxError, KfxErrorView, ParseMode};
use crate::inspect::{parse_native, native_spec};
use crate::native::{NativeModel, NativeModelView, FragmentView, fragment_views, has_cont_prefix};
use crate::reading::{ordered_content_fragment_indices, alias, alias_spec};
use crate::text_events::{content_order_spec, fragment_positions};

verus! {

broadcast use vstd::laws_cmp::group_laws_cmp;

pub const STRING_POOL_FRAGMENT_TYPE: u32 = 145;
pub const CONTENT_FRAGMENT_TYPE: u32 = 259;

/// The queries a walk looks for: `(query id, query)` pairs matched by
/// equality and by containment. Empty queries match nothing and are dropped.
#[derive(Debug)]
pub struct SourceStringQueryMatcher {
    pub exact: Vec<(String, String)>,
    pub contains: Vec<(String, String)>,
}

pub open spec fn pair_views(s: Seq<(String, String)>) -> Seq<(Seq<char>, Seq<char>)> {
    s.map_values(|p: (String, String)| (p.0@, p.1@))
}

/// The non-empty queries with the given `exact` flag, as `(id, query)`.
pub open spec fn queries_of(qs: Seq<(Seq<char>, Seq<char>, bool)>, exact: bool) -> Seq<(Seq<char>, Seq<char>)>
    decreases qs.len(),
{
    if qs.len() == 0 {
        Seq::empty()
    } else {
        let before = queries_of(qs.drop_last(), exact);
        let q = qs.last();
        if q.1.len() > 0 && q.2 == exact { before.push((q.0, q.1)) } else { before }
    }
}

pub open spec fn query_views(s: Seq<(String, String, bool)>) -> Seq<(Seq<char>, Seq<char>, bool)> {
    s.map_values(|q: (String, String, bool)| (q.0@, q.1@, q.2))
}

impl SourceStringQueryMatcher {
    pub open spec fn exact_view(&self) -> Seq<(Seq<char>, Seq<char>)> {
        pair_views(self.exact@)
    }

    pub open spec fn contains_view(&self) -> Seq<(Seq<char>, Seq<char>)> {
        pair_views(self.contains@)
    }

    /// Splits `(query id, query, exact only)` triples into the two lists.
    pub fn new(queries: &Vec<(String, String, bool)>) -> (r: Self)
        ensures
            r.exact_view() == queries_of(query_views(queries@), true),
            r.contains_view() == queries_of(query_views(queries@), false),
    {
        let ghost qv = query_views(queries@);
        let mut exact: Vec<(String, String)> = Vec::new();
        let mut contains: Vec<(String, String)> = Vec::new();
        let mut i: usize = 0;
        while i < queries.len()
            invariant
                0 <= i <= queries@.len(),
                qv == query_views(queries@),
                pair_views(exact@) == queries_of(qv.take(i as int), true),
                pair_views(contains@) == queries_of(qv.take(i as int), false),
            decreases queries@.len() - i,
        {
            proof {
                assert(qv.take(i + 1).drop_last() =~= qv.take(i as int));
                assert(qv.take(i + 1).last() == qv[i as int]);
            }
            let q = &queries[i];
            if !q.1.as_str().is_empty() {
                let ghost e0 = exact@;
                let ghost c0 = contains@;
                let pair = (owned(q.0.as_str()), owned(q.1.as_str()));
                if q.2 {
                    exact.push(pair);
                    assert(pair_views(exact@) =~= pair_views(e0).push((q.0@, q.1@)));
                } else {
                    contains.push(pair);
                    assert(pair_views(contains@) =~= pair_views(c0).push((q.0@, q.1@)));
                }
            } else {
                assert(q.1@.len() == 0);
            }
            i = i + 1;
        }
        assert(qv.take(qv.len() as int) =~= qv);
        SourceStringQueryMatcher { exact, contains }
    }
}

/// The ids of the queries in `qs` that `text` matches, added to `acc`: by
/// containment when `containing`, else by equality.
pub open spec fn ids_matching(acc: Set<Seq<char>>, qs: Seq<(Seq<char>, Seq<char>)>, text: Seq<char>, containing: bool) -> Set<Seq<char>>
    decreases qs.len(),
{
    if qs.len() == 0 {
        acc
    } else {
        let before = ids_matching(acc, qs.drop_last(), text, containing);
        let q = qs.last();
        let hit = if containing { contains_run(text, q.1) } else { text == q.1 };
        if hit { before.insert(q.0) } else { before }
    }
}

/// The ids of every query `text` matches.
pub open spec fn matched_ids(exact: Seq<(Seq<char>, Seq<char>)>, contains: Seq<(Seq<char>, Seq<char>)>, text: Seq<char>) -> Set<Seq<char>> {
    ids_matching(ids_matching(Set::empty(), exact, text, false), contains, text, true)
}

/// The ids of the queries `text` equals.
pub open spec fn exact_ids(exact: Seq<(Seq<char>, Seq<char>)>, contains: Seq<(Seq<char>, Seq<char>)>, text: Seq<char>) -> Set<Seq<char>> {
    ids_matching(ids_matching(Set::empty(), exact, text, false), contains, text, false)
}

fn add_matching(acc: &mut StringSet, qs: &Vec<(String, String)>, text: &str, containing: bool)
    requires
        old(acc).wf(),
    ensures
        final(acc).wf(),
        final(acc).set() == ids_matching(old(acc).set(), pair_views(qs@), text@, containing),
{
    let ghost qv = pair_views(qs@);
    let ghost a0 = acc.set();
    let t = chars_of(text);
    let mut i: usize = 0;
    while i < qs.len()
        invariant
            0 <= i <= qs@.len(),
            qv == pair_views(qs@),
            t@ == text@,
            acc.wf(),
            acc.set() == ids_matching(a0, qv.take(i as int), text@, containing),
        decreases qs@.len() - i,
    {
        proof {
            assert(qv.take(i + 1).drop_last() =~= qv.take(i as int));
            assert(qv.take(i + 1).last() == qv[i as int]);
        }
        let hit = if containing {
            let q = chars_of(qs[i].1.as_str());
            chars_contains(t.as_slice(), q.as_slice())
        } else {
            str_eq(text, qs[i].1.as_str())
        };
        if hit {
            acc.insert_str(qs[i].0.as_str());
        }
        i = i + 1;
    }
    assert(qv.take(qv.len() as int) =~= qv);
}

/// Where a walk is: the fragment, its alias among the content fragments,
/// and, for a string pool, its table id.
#[derive(Debug)]
pub struct SourceStringFragmentContext {
    pub fragment_index: usize,
    pub fragment_type: u32,
    pub entity_id: u32,
    pub content_fragment_alias: Option<String>,
    pub string_table_id: Option<u32>,
}

/// One string met by the walk.
#[derive(Debug)]
pub struct SourceStringEntry {
    pub fragment_index: usize,
    pub fragment_type: u32,
    pub entity_id: u32,
    pub content_fragment_alias: Option<String>,
    pub source_path: String,
    pub parent_field_ids: Vec<u64>,
    pub string_table_id: Option<u32>,
    pub string_table_index: Option<usize>,
    pub matched_query_ids: Vec<String>,
    pub exact_query_ids: Vec<String>,
    pub text: String,
}

pub struct EntryView {
    pub fragment_index: usize,
    pub fragment_type: u32,
    pub entity_id: u32,
    pub content_fragment_alias: Option<Seq<char>>,
    pub source_path: Seq<char>,
    pub parent_field_ids: Seq<u64>,
    pub string_table_id: Option<u32>,
    pub string_table_index: Option<usize>,
    pub matched_query_ids: Set<Seq<char>>,
    pub exact_query_ids: Set<Seq<char>>,
    pub text: Seq<char>,
}

impl SourceStringEntry {
    pub open spec fn entry_view(self) -> EntryView {
        EntryView {
            fragment_index: self.fragment_index,
            fragment_type: self.fragment_type,
            entity_id: self.entity_id,
            content_fragment_alias: opt_string_view(self.content_fragment_alias),
            source_path: self.source_path@,
            parent_field_ids: self.parent_field_ids@,
            string_table_id: self.string_table_id,
            string_table_index: self.string_table_index,
            matched_query_ids: string_views(self.matched_query_ids@).to_set(),
            exact_query_ids: string_views(self.exact_query_ids@).to_set(),
            text: self.text@,
        }
    }

    /// The query ids are listed sorted, each once.
    pub open spec fn ids_sorted(self) -> bool {
        sorted_unique(string_views(self.matched_query_ids@)) && sorted_unique(string_views(self.exact_query_ids@))
    }
}

pub open spec fn entry_views(s: Seq<SourceStringEntry>) -> Seq<EntryView> {
    s.map_values(|e: SourceStringEntry| e.entry_view())
}

pub struct ContextView {
    pub fragment_index: usize,
    pub fragment_type: u32,
    pub entity_id: u32,
    pub content_fragment_alias: Option<Seq<char>>,
    pub string_table_id: Option<u32>,
}

impl SourceStringFragmentContext {
    pub open spec fn context_view(self) -> ContextView {
        ContextView {
            fragment_index: self.fragment_index,
            fragment_type: self.fragment_type,
            entity_id: self.entity_id,
            content_fragment_alias: opt_string_view(self.content_fragment_alias),
            string_table_id: self.string_table_id,
        }
    }
}

pub type MatcherView = (Seq<(Seq<char>, Seq<char>)>, Seq<(Seq<char>, Seq<char>)>);

pub open spec fn matcher_view(m: Option<&SourceStringQueryMatcher>) -> Option<MatcherView> {
    match m {
        Some(x) => Some((x.exact_view(), x.contains_view())),
        None => None,
    }
}

/// The pool index of a string at `path`: `$146[i]` directly in a pool.
pub open spec fn pool_index(ctx: ContextView, path: Seq<IonAuditPathToken>) -> Option<usize> {
    if ctx.fragment_type == STRING_POOL_FRAGMENT_TYPE && path.len() == 2 && path[0] == IonAuditPathToken::Field(FIELD_TEXT_VALUES) {
        match path[1] {
            IonAuditPathToken::Index(i) => Some(i),
            _ => None,
        }
    } else {
        None
    }
}

/// The entry for `text` at `path`, if the walk keeps it: every string
/// without queries, only matching ones with them.
pub open spec fn string_entry(text: Seq<char>, path: Seq<IonAuditPathToken>, parents: Seq<u64>, ctx: ContextView, m: Option<MatcherView>) -> Seq<EntryView> {
    let index = pool_index(ctx, path);
    let matched = match m {
        Some(q) => matched_ids(q.0, q.1, text),
        None => Set::empty(),
    };
    let exact = match m {
        Some(q) => exact_ids(q.0, q.1, text),
        None => Set::empty(),
    };
    if m is None || !matched.is_empty() {
        seq![EntryView {
            fragment_index: ctx.fragment_index,
            fragment_type: ctx.fragment_type,
            entity_id: ctx.entity_id,
            content_fragment_alias: ctx.content_fragment_alias,
            source_path: format_path_spec(path),
            parent_field_ids: parents,
            string_table_id: if index is Some { ctx.string_table_id } else { None },
            string_table_index: index,
            matched_query_ids: matched,
            exact_query_ids: exact,
            text,
        }]
    } else {
        Seq::empty()
    }
}

/// The strings of a value in document order.
pub open spec fn entries_walk(v: IonModel, path: Seq<IonAuditPathToken>, parents: Seq<u64>, ctx: ContextView, m: Option<MatcherView>) -> Seq<EntryView>
    decreases v,
{
    match v {
        IonModel::String(text) => string_entry(text, path, parents, ctx, m),
        IonModel::Struct(fields) => entries_walk_fields(fields, path, parents, ctx, m),
        IonModel::List(items) => entries_walk_items(items, path, parents, ctx, m),
        IonModel::SExp(items) => entries_walk_items(items, path, parents, ctx, m),
        IonModel::Annotation { value, .. } => entries_walk(*value, path, parents, ctx, m),
        _ => Seq::empty(),
    }
}

pub open spec fn entries_walk_items(s: Seq<IonModel>, path: Seq<IonAuditPathToken>, parents: Seq<u64>, ctx: ContextView, m: Option<MatcherView>) -> Seq<EntryView>
    decreases s,
{
    if s.len() == 0 {
        Seq::empty()
    } else {
        entries_walk_items(s.drop_last(), path, parents, ctx, m)
            + entries_walk(s.last(), path.push(IonAuditPathToken::Index((s.len() - 1) as usize)), parents, ctx, m)
    }
}

pub open spec fn entries_walk_fields(s: Seq<(u64, IonModel)>, path: Seq<IonAuditPathToken>, parents: Seq<u64>, ctx: ContextView, m: Option<MatcherView>) -> Seq<EntryView>
    decreases s,
{
    if s.len() == 0 {
        Seq::empty()
    } else {
        proof {
            assert(decreases_to!(s => s[s.len() - 1].1));
        }
        let f = s.last();
        entries_walk_fields(s.drop_last(), path, parents, ctx, m)
            + entries_walk(f.1, path.push(IonAuditPathToken::Field(f.0)), parents.push(f.0), ctx, m)
    }
}

fn copy_ids(v: &Vec<u64>) -> (r: Vec<u64>)
    ensures
        r@ == v@,
{
    let mut out: Vec<u64> = Vec::new();
    let mut i: usize = 0;
    while i < v.len()
        invariant
            0 <= i <= v@.len(),
            out@ == v@.take(i as int),
        decreases v@.len() - i,
    {
        out.push(v[i]);
        assert(out@ =~= v@.take(i + 1));
        i = i + 1;
    }
    assert(v@.take(v@.len() as int) =~= v@);
    out
}

pub(crate) fn copy_opt(s: &Option<String>) -> (r: Option<String>)
    ensures
        opt_string_view(r) == opt_string_view(*s),
{
    match s {
        Some(x) => Some(owned(x.as_str())),
        None => None,
    }
}

fn string_entry_of(
    text: &String,
    path: &Vec<IonAuditPathToken>,
    parents: &Vec<u64>,
    context: &SourceStringFragmentContext,
    matcher: Option<&SourceStringQueryMatcher>,
    out: &mut Vec<SourceStringEntry>,
)
    ensures
        entry_views(final(out)@) == entry_views(old(out)@) + string_entry(text@, path@, parents@, context.context_view(), matcher_view(matcher)),
        forall|k: int| 0 <= k < old(out)@.len() ==> final(out)@[k] == old(out)@[k],
        forall|k: int| old(out)@.len() <= k < final(out)@.len() ==> (#[trigger] final(out)@[k]).ids_sorted(),
{
    let ghost ctx = context.context_view();
    let index = if context.fragment_type == STRING_POOL_FRAGMENT_TYPE && path.len() == 2 && path[0] == IonAuditPathToken::Field(FIELD_TEXT_VALUES) {
        match path[1] {
            IonAuditPathToken::Index(i) => Some(i),
            _ => None,
        }
    } else {
        None
    };
    assert(index == pool_index(ctx, path@));
    let mut matched = StringSet::new();
    let mut exact = StringSet::new();
    assert(matched.set() =~= Set::<Seq<char>>::empty());
    assert(exact.set() =~= Set::<Seq<char>>::empty());
    let keep = match matcher {
        Some(q) => {
            add_matching(&mut matched, &q.exact, text.as_str(), false);
            add_matching(&mut matched, &q.contains, text.as_str(), true);
            add_matching(&mut exact, &q.exact, text.as_str(), false);
            add_matching(&mut exact, &q.contains, text.as_str(), false);
            matched.len() > 0
        },
        None => true,
    };
    let ghost before = out@;
    if keep {
        let matched_ids = matched.to_vec();
        let exact_ids = exact.to_vec();
        out.push(SourceStringEntry {
            fragment_index: context.fragment_index,
            fragment_type: context.fragment_type,
            entity_id: context.entity_id,
            content_fragment_alias: copy_opt(&context.content_fragment_alias),
            source_path: format_ion_audit_path(path.as_slice()),
            parent_field_ids: copy_ids(parents),
            string_table_id: if index.is_some() { context.string_table_id } else { None },
            string_table_index: index,
            matched_query_ids: matched_ids,
            exact_query_ids: exact_ids,
            text: owned(text.as_str()),
        });
        proof {
            if matcher is Some {
                assert(!matched.set().is_empty()) by {
                    assert(matched.elems().len() > 0);
                    assert(matched.set().contains(matched.elems()[0]));
                }
            }
            assert(entry_views(out@) =~= entry_views(before) + string_entry(text@, path@, parents@, ctx, matcher_view(matcher)));
        }
    } else {
        proof {
            assert(matched.set().is_empty()) by {
                assert(matched.set() =~= Set::<Seq<char>>::empty()) by {
                    assert forall|x: Seq<char>| !matched.set().contains(x) by {
                        if matched.elems().contains(x) {
                            assert(matched.elems().len() > 0);
                        }
                    }
                }
            }
            assert(entry_views(out@) =~= entry_views(before) + Seq::<EntryView>::empty());
        }
    }
}

/// Collects the strings of `value` at `path` (under the fields `parents`)
/// into `out`.
pub fn collect_source_string_entries(
    value: &IonValue,
    context: &SourceStringFragmentContext,
    matcher: Option<&SourceStringQueryMatcher>,
    path: &mut Vec<IonAuditPathToken>,
    parents: &mut Vec<u64>,
    out: &mut Vec<SourceStringEntry>,
)
    ensures
        final(path)@ == old(path)@,
        final(parents)@ == old(parents)@,
        entry_views(final(out)@) == entry_views(old(out)@) + entries_walk(value@, old(path)@, old(parents)@, context.context_view(), matcher_view(matcher)),
        forall|k: int| 0 <= k < old(out)@.len() ==> final(out)@[k] == old(out)@[k],
        forall|k: int| old(out)@.len() <= k < final(out)@.len() ==> (#[trigger] final(out)@[k]).ids_sorted(),
    decreases value,
{
    match value {
        IonValue::String(text) => string_entry_of(text, path, parents, context, matcher, out),
        IonValue::Struct(fields) => {
            proof {
                lemma_field_models_index(fields@);
            }
            entries_in_fields(fields, context, matcher, path, parents, out);
        },
        IonValue::List(items) => entries_in_items(items, context, matcher, path, parents, out),
        IonValue::SExp(items) => entries_in_items(items, context, matcher, path, parents, out),
        IonValue::Annotation { value: inner, .. } => collect_source_string_entries(inner, context, matcher, path, parents, out),
        _ => {
            assert(entry_views(out@) =~= entry_views(out@) + Seq::<EntryView>::empty());
        },
    }
}

fn entries_in_items(
    items: &Vec<IonValue>,
    context: &SourceStringFragmentContext,
    matcher: Option<&SourceStringQueryMatcher>,
    path: &mut Vec<IonAuditPathToken>,
    parents: &mut Vec<u64>,
    out: &mut Vec<SourceStringEntry>,
)
    ensures
        final(path)@ == old(path)@,
        final(parents)@ == old(parents)@,
        entry_views(final(out)@) == entry_views(old(out)@) + entries_walk_items(models(items@), old(path)@, old(parents)@, context.context_view(), matcher_view(matcher)),
        forall|k: int| 0 <= k < old(out)@.len() ==> final(out)@[k] == old(out)@[k],
        forall|k: int| old(out)@.len() <= k < final(out)@.len() ==> (#[trigger] final(out)@[k]).ids_sorted(),
    decreases items,
{
    let ghost ms = models(items@);
    let ghost p0 = path@;
    let ghost q0 = parents@;
    let ghost o0 = out@;
    proof {
        lemma_models_index(items@);
    }
    let mut i: usize = 0;
    assert(entry_views(out@) =~= entry_views(o0) + entries_walk_items(ms.take(0), p0, q0, context.context_view(), matcher_view(matcher)));
    while i < items.len()
        invariant
            0 <= i <= items@.len(),
            ms == models(items@),
            ms.len() == items@.len(),
            forall|k: int| 0 <= k < items@.len() ==> #[trigger] ms[k] == items@[k]@,
            path@ == p0,
            parents@ == q0,
            entry_views(out@) == entry_views(o0) + entries_walk_items(ms.take(i as int), p0, q0, context.context_view(), matcher_view(matcher)),
            forall|k: int| 0 <= k < o0.len() ==> out@[k] == o0[k],
            out@.len() >= o0.len(),
            forall|k: int| o0.len() <= k < out@.len() ==> (#[trigger] out@[k]).ids_sorted(),
        decreases items@.len() - i,
    {
        assert(decreases_to!(items => items@[i as int]));
        proof {
            assert(ms.take(i + 1).drop_last() =~= ms.take(i as int));
            assert(ms.take(i + 1).last() == items@[i as int]@);
        }
        let ghost mid = out@;
        path.push(IonAuditPathToken::Index(i));
        collect_source_string_entries(&items[i], context, matcher, path, parents, out);
        path.pop();
        proof {
            assert(p0.push(IonAuditPathToken::Index(i)).drop_last() =~= p0);
            assert(entry_views(out@) =~= entry_views(o0) + entries_walk_items(ms.take(i + 1), p0, q0, context.context_view(), matcher_view(matcher)));
        }
        i = i + 1;
    }
    assert(ms.take(ms.len() as int) =~= ms);
}

fn entries_in_fields(
    fields: &Vec<(u64, IonValue)>,
    context: &SourceStringFragmentContext,
    matcher: Option<&SourceStringQueryMatcher>,
    path: &mut Vec<IonAuditPathToken>,
    parents: &mut Vec<u64>,
    out: &mut Vec<SourceStringEntry>,
)
    ensures
        final(path)@ == old(path)@,
        final(parents)@ == old(parents)@,
        entry_views(final(out)@) == entry_views(old(out)@) + entries_walk_fields(field_models(fields@), old(path)@, old(parents)@, context.context_view(), matcher_view(matcher)),
        forall|k: int| 0 <= k < old(out)@.len() ==> final(out)@[k] == old(out)@[k],
        forall|k: int| old(out)@.len() <= k < final(out)@.len() ==> (#[trigger] final(out)@[k]).ids_sorted(),
    decreases fields,
{
    let ghost fs = field_models(fields@);
    let ghost p0 = path@;
    let ghost q0 = parents@;
    let ghost o0 = out@;
    proof {
        lemma_field_models_index(fields@);
    }
    let mut i: usize = 0;
    assert(entry_views(out@) =~= entry_views(o0) + entries_walk_fields(fs.take(0), p0, q0, context.context_view(), matcher_view(matcher)));
    while i < fields.len()
        invariant
            0 <= i <= fields@.len(),
            fs == field_models(fields@),
            fs.len() == fields@.len(),
            forall|k: int| 0 <= k < fields@.len() ==> #[trigger] fs[k] == (fields@[k].0, fields@[k].1@),
            path@ == p0,
            parents@ == q0,
            entry_views(out@) == entry_views(o0) + entries_walk_fields(fs.take(i as int), p0, q0, context.context_view(), matcher_view(matcher)),
            forall|k: int| 0 <= k < o0.len() ==> out@[k] == o0[k],
            out@.len() >= o0.len(),
            forall|k: int| o0.len() <= k < out@.len() ==> (#[trigger] out@[k]).ids_sorted(),
        decreases fields@.len() - i,
    {
        assert(decreases_to!(fields => fields@[i as int].1));
        proof {
            assert(fs.take(i + 1).drop_last() =~= fs.take(i as int));
            assert(fs.take(i + 1).last() == fs[i as int]);
        }
        let field = fields[i].0;
        path.push(IonAuditPathToken::Field(field));
        parents.push(field);
        collect_source_string_entries(&fields[i].1, context, matcher, path, parents, out);
        path.pop();
        parents.pop();
        proof {
            assert(p0.push(IonAuditPathToken::Field(field)).drop_last() =~= p0);
            assert(q0.push(field).drop_last() =~= q0);
            assert(entry_views(out@) =~= entry_views(o0) + entries_walk_fields(fs.take(i + 1), p0, q0, context.context_view(), matcher_view(matcher)));
        }
        i = i + 1;
    }
    assert(fs.take(fs.len() as int) =~= fs);
}

/// A content reference to a string-pool entry.
#[derive(Debug)]
pub struct SourceStringReference {
    pub fragment_index: usize,
    pub fragment_type: u32,
    pub entity_id: u32,
    pub content_fragment_alias: Option<String>,
    pub source_path: String,
    pub parent_field_ids: Vec<u64>,
    pub role_candidate: String,
}

pub struct ReferenceView {
    pub fragment_index: usize,
    pub fragment_type: u32,
    pub entity_id: u32,
    pub content_fragment_alias: Option<Seq<char>>,
    pub source_path: Seq<char>,
    pub parent_field_ids: Seq<u64>,
    pub role_candidate: Seq<char>,
}

impl View for SourceStringReference {
    type V = ReferenceView;

    open spec fn view(&self) -> ReferenceView {
        ReferenceView {
            fragment_index: self.fragment_index,
            fragment_type: self.fragment_type,
            entity_id: self.entity_id,
            content_fragment_alias: opt_string_view(self.content_fragment_alias),
            source_path: self.source_path@,
            parent_field_ids: self.parent_field_ids@,
            role_candidate: self.role_candidate@,
        }
    }
}

pub open spec fn reference_views(s: Seq<SourceStringReference>) -> Seq<ReferenceView> {
    s.map_values(|r: SourceStringReference| r@)
}

pub open spec fn references_view(m: Map<(u32, usize), Vec<SourceStringReference>>) -> Map<(u32, usize), Seq<ReferenceView>> {
    m.map_values(|v: Vec<SourceStringReference>| reference_views(v@))
}

/// The role of a reference: from a content fragment or from elsewhere.
pub open spec fn reference_role(fragment_type: u32) -> Seq<char> {
    if fragment_type == CONTENT_FRAGMENT_TYPE {
        "content_fragment_string_reference_candidate"@
    } else {
        "non_content_string_reference"@
    }
}

/// The pool entry a resolvable reference names: its table and index.
pub open spec fn reference_key(v: IonModel) -> (u32, usize) {
    ((symbol_field(v, FIELD_FRAGMENT_ID)->Some_0) as u32, (int_field(v, FIELD_FRAGMENT_STRING_INDEX)->Some_0) as usize)
}

pub open spec fn listed<K, V>(m: Map<K, Seq<V>>, k: K) -> Seq<V> {
    if m.contains_key(k) { m[k] } else { Seq::empty() }
}

/// The references of a value, added in document order to the lists of the
/// pool entries they name.
pub open spec fn refs_walk(
    acc: Map<(u32, usize), Seq<ReferenceView>>,
    v: IonModel,
    path: Seq<IonAuditPathToken>,
    parents: Seq<u64>,
    ctx: ContextView,
    tables: Map<u32, Seq<Seq<char>>>,
) -> Map<(u32, usize), Seq<ReferenceView>>
    decreases v,
{
    let here = if resolve_ref_spec(v, tables) is Some {
        let k = reference_key(v);
        acc.insert(k, listed(acc, k).push(ReferenceView {
            fragment_index: ctx.fragment_index,
            fragment_type: ctx.fragment_type,
            entity_id: ctx.entity_id,
            content_fragment_alias: ctx.content_fragment_alias,
            source_path: format_path_spec(path),
            parent_field_ids: parents,
            role_candidate: reference_role(ctx.fragment_type),
        }))
    } else {
        acc
    };
    match v {
        IonModel::Struct(fields) => refs_walk_fields(here, fields, path, parents, ctx, tables),
        IonModel::List(items) => refs_walk_items(here, items, path, parents, ctx, tables),
        IonModel::SExp(items) => refs_walk_items(here, items, path, parents, ctx, tables),
        IonModel::Annotation { value, .. } => refs_walk(here, *value, path, parents, ctx, tables),
        _ => here,
    }
}

pub open spec fn refs_walk_items(
    acc: Map<(u32, usize), Seq<ReferenceView>>,
    s: Seq<IonModel>,
    path: Seq<IonAuditPathToken>,
    parents: Seq<u64>,
    ctx: ContextView,
    tables: Map<u32, Seq<Seq<char>>>,
) -> Map<(u32, usize), Seq<ReferenceView>>
    decreases s,
{
    if s.len() == 0 {
        acc
    } else {
        refs_walk(
            refs_walk_items(acc, s.drop_last(), path, parents, ctx, tables),
            s.last(),
            path.push(IonAuditPathToken::Index((s.len() - 1) as usize)),
            parents,
            ctx,
            tables,
        )
    }
}

pub open spec fn refs_walk_fields(
    acc: Map<(u32, usize), Seq<ReferenceView>>,
    s: Seq<(u64, IonModel)>,
    path: Seq<IonAuditPathToken>,
    parents: Seq<u64>,
    ctx: ContextView,
    tables: Map<u32, Seq<Seq<char>>>,
) -> Map<(u32, usize), Seq<ReferenceView>>
    decreases s,
{
    if s.len() == 0 {
        acc
    } else {
        proof {
            assert(decreases_to!(s => s[s.len() - 1].1));
        }
        let f = s.last();
        refs_walk(
            refs_walk_fields(acc, s.drop_last(), path, parents, ctx, tables),
            f.1,
            path.push(IonAuditPathToken::Field(f.0)),
            parents.push(f.0),
            ctx,
            tables,
        )
    }
}

fn add_reference(
    value: &IonValue,
    context: &SourceStringFragmentContext,
    tables: &BTreeMap<u32, Vec<String>>,
    path: &Vec<IonAuditPathToken>,
    parents: &Vec<u64>,
    refs: &mut BTreeMap<(u32, usize), Vec<SourceStringReference>>,
)
    ensures
        references_view(final(refs)@) == if resolve_ref_spec(value@, table_views(tables@)) is Some {
            let acc = references_view(old(refs)@);
            let k = reference_key(value@);
            acc.insert(k, listed(acc, k).push(ReferenceView {
                fragment_index: context.fragment_index,
                fragment_type: context.fragment_type,
                entity_id: context.entity_id,
                content_fragment_alias: opt_string_view(context.content_fragment_alias),
                source_path: format_path_spec(path@),
                parent_field_ids: parents@,
                role_candidate: reference_role(context.fragment_type),
            }))
        } else {
            references_view(old(refs)@)
        },
{
    broadcast use vstd::std_specs::btree::group_btree_axioms;
    if resolve_string_reference(value, tables).is_none() {
        return;
    }
    let table = crate::value::symbol_field_of(value, FIELD_FRAGMENT_ID);
    let index = crate::value::int_field_of(value, FIELD_FRAGMENT_STRING_INDEX);
    match (table, index) {
        (Some(t), Some(i)) => {
            let key = (t as u32, i as usize);
            assert(key == reference_key(value@));
            let ghost acc = references_view(refs@);
            let role = if context.fragment_type == CONTENT_FRAGMENT_TYPE {
                owned("content_fragment_string_reference_candidate")
            } else {
                owned("non_content_string_reference")
            };
            let reference = SourceStringReference {
                fragment_index: context.fragment_index,
                fragment_type: context.fragment_type,
                entity_id: context.entity_id,
                content_fragment_alias: copy_opt(&context.content_fragment_alias),
                source_path: format_ion_audit_path(path.as_slice()),
                parent_field_ids: copy_ids(parents),
                role_candidate: role,
            };
            let mut list = match refs.remove(&key) {
                Some(l) => l,
                None => Vec::new(),
            };
            let ghost l0 = list@;
            assert(reference_views(l0) == listed(acc, key));
            list.push(reference);
            assert(reference_views(list@) =~= reference_views(l0).push(list@[list@.len() - 1]@));
            refs.insert(key, list);
            assert(references_view(refs@) =~= acc.insert(key, listed(acc, key).push(list@[list@.len() - 1]@)));
        },
        _ => {},
    }
}

/// Adds the references of `value` at `path` (under the fields `parents`) to
/// `refs`.
pub fn collect_source_string_references(
    value: &IonValue,
    context: &SourceStringFragmentContext,
    tables: &BTreeMap<u32, Vec<String>>,
    path: &mut Vec<IonAuditPathToken>,
    parents: &mut Vec<u64>,
    refs: &mut BTreeMap<(u32, usize), Vec<SourceStringReference>>,
)
    ensures
        final(path)@ == old(path)@,
        final(parents)@ == old(parents)@,
        references_view(final(refs)@) == refs_walk(references_view(old(refs)@), value@, old(path)@, old(parents)@, context.context_view(), table_views(tables@)),
    decreases value,
{
    add_reference(value, context, tables, path, parents, refs);
    match value {
        IonValue::Struct(fields) => {
            proof {
                lemma_field_models_index(fields@);
            }
            refs_in_fields(fields, context, tables, path, parents, refs);
        },
        IonValue::List(items) => refs_in_items(items, context, tables, path, parents, refs),
        IonValue::SExp(items) => refs_in_items(items, context, tables, path, parents, refs),
        IonValue::Annotation { value: inner, .. } => collect_source_string_references(inner, context, tables, path, parents, refs),
        _ => {},
    }
}

fn refs_in_items(
    items: &Vec<IonValue>,
    context: &SourceStringFragmentContext,
    tables: &BTreeMap<u32, Vec<String>>,
    path: &mut Vec<IonAuditPathToken>,
    parents: &mut Vec<u64>,
    refs: &mut BTreeMap<(u32, usize), Vec<SourceStringReference>>,
)
    ensures
        final(path)@ == old(path)@,
        final(parents)@ == old(parents)@,
        references_view(final(refs)@) == refs_walk_items(references_view(old(refs)@), models(items@), old(path)@, old(parents)@, context.context_view(), table_views(tables@)),
    decreases items,
{
    let ghost ms = models(items@);
    let ghost p0 = path@;
    let ghost q0 = parents@;
    let ghost r0 = references_view(refs@);
    proof {
        lemma_models_index(items@);
    }
    let mut i: usize = 0;
    while i < items.len()
        invariant
            0 <= i <= items@.len(),
            ms == models(items@),
            ms.len() == items@.len(),
            forall|k: int| 0 <= k < items@.len() ==> #[trigger] ms[k] == items@[k]@,
            path@ == p0,
            parents@ == q0,
            references_view(refs@) == refs_walk_items(r0, ms.take(i as int), p0, q0, context.context_view(), table_views(tables@)),
        decreases items@.len() - i,
    {
        assert(decreases_to!(items => items@[i as int]));
        proof {
            assert(ms.take(i + 1).drop_last() =~= ms.take(i as int));
            assert(ms.take(i + 1).last() == items@[i as int]@);
        }
        path.push(IonAuditPathToken::Index(i));
        collect_source_string_references(&items[i], context, tables, path, parents, refs);
        path.pop();
        proof {
            assert(p0.push(IonAuditPathToken::Index(i)).drop_last() =~= p0);
        }
        i = i + 1;
    }
    assert(ms.take(ms.len() as int) =~= ms);
}

fn refs_in_fields(
    fields: &Vec<(u64, IonValue)>,
    context: &SourceStringFragmentContext,
    tables: &BTreeMap<u32, Vec<String>>,
    path: &mut Vec<IonAuditPathToken>,
    parents: &mut Vec<u64>,
    refs: &mut BTreeMap<(u32, usize), Vec<SourceStringReference>>,
)
    ensures
        final(path)@ == old(path)@,
        final(parents)@ == old(parents)@,
        references_view(final(refs)@) == refs_walk_fields(references_view(old(refs)@), field_models(fields@), old(path)@, old(parents)@, context.context_view(), table_views(tables@)),
    decreases fields,
{
    let ghost fs = field_models(fields@);
    let ghost p0 = path@;
    let ghost q0 = parents@;
    let ghost r0 = references_view(refs@);
    proof {
        lemma_field_models_index(fields@);
    }
    let mut i: usize = 0;
    while i < fields.len()
        invariant
            0 <= i <= fields@.len(),
            fs == field_models(fields@),
            fs.len() == fields@.len(),
            forall|k: int| 0 <= k < fields@.len() ==> #[trigger] fs[k] == (fields@[k].0, fields@[k].1@),
            path@ == p0,
            parents@ == q0,
            references_view(refs@) == refs_walk_fields(r0, fs.take(i as int), p0, q0, context.context_view(), table_views(tables@)),
        decreases fields@.len() - i,
    {
        assert(decreases_to!(fields => fields@[i as int].1));
        proof {
            assert(fs.take(i + 1).drop_last() =~= fs.take(i as int));
            assert(fs.take(i + 1).last() == fs[i as int]);
        }
        let field = fields[i].0;
        path.push(IonAuditPathToken::Field(field));
        parents.push(field);
        collect_source_string_references(&fields[i].1, context, tables, path, parents, refs);
        path.pop();
        parents.pop();
        proof {
            assert(p0.push(IonAuditPathToken::Field(field)).drop_last() =~= p0);
            assert(q0.push(field).drop_last() =~= q0);
        }
        i = i + 1;
    }
    assert(fs.take(fs.len() as int) =~= fs);
}

/// One row of the inventory.
#[derive(Debug)]
pub struct SourceStringRow {
    pub string_id: String,
    pub fragment_index: usize,
    pub fragment_type: u32,
    pub entity_id: u32,
    pub content_fragment_alias: Option<String>,
    pub source_path: String,
    pub parent_field_ids: Vec<u64>,
    pub role_candidate: String,
    pub unicode_scalar_length: usize,
    pub sha256_raw_audit_only: String,
    pub string_table_id: Option<u32>,
    pub string_table_index: Option<usize>,
    pub matched_query_ids: Vec<String>,
    pub exact_query_ids: Vec<String>,
    pub reference_count: usize,
    pub references: Vec<SourceStringReference>,
    pub private_text: Option<String>,
}

/// The row id of the `ordinal`-th string (from 0): `S` and the 1-based
/// number in seven digits.
pub open spec fn string_id_spec(ordinal: nat) -> Seq<char> {
    "S"@ + pad7(decimal(ordinal + 1))
}

pub open spec fn pad7(d: Seq<char>) -> Seq<char> {
    if d.len() >= 7 {
        d
    } else {
        Seq::new((7 - d.len()) as nat, |i: int| '0') + d
    }
}

/// What kind of string a row is thought to be.
pub open spec fn string_role(e: EntryView) -> Seq<char> {
    if e.string_table_id is Some {
        "string_table_entry_candidate"@
    } else if ends_with(e.source_path, ".$584"@) {
        "direct_text_field_584_candidate"@
    } else {
        "unclassified_raw_string"@
    }
}

/// The row of an entry, beside the fields it copies.
pub open spec fn row_ok(r: SourceStringRow, e: SourceStringEntry, ordinal: nat, linked: Seq<ReferenceView>, include_private: bool) -> bool {
    &&& r.string_id@ == string_id_spec(ordinal)
    &&& r.fragment_index == e.fragment_index
    &&& r.fragment_type == e.fragment_type
    &&& r.entity_id == e.entity_id
    &&& opt_string_view(r.content_fragment_alias) == opt_string_view(e.content_fragment_alias)
    &&& r.source_path@ == e.source_path@
    &&& r.parent_field_ids@ == e.parent_field_ids@
    &&& r.role_candidate@ == string_role(e.entry_view())
    &&& r.unicode_scalar_length == e.text@.len()
    &&& r.sha256_raw_audit_only@ == hex_spec(sha256(vstd::utf8::encode_utf8(e.text@)))
    &&& r.string_table_id == e.string_table_id
    &&& r.string_table_index == e.string_table_index
    &&& string_views(r.matched_query_ids@) == string_views(e.matched_query_ids@)
    &&& string_views(r.exact_query_ids@) == string_views(e.exact_query_ids@)
    &&& r.reference_count == linked.len()
    &&& reference_views(r.references@) == linked
    &&& opt_string_view(r.private_text) == if include_private { Some(e.text@) } else { None }
}

fn string_id(ordinal: usize) -> (r: String)
    requires
        ordinal < usize::MAX,
    ensures
        r@ == string_id_spec(ordinal as nat),
{
    let mut digits: Vec<char> = Vec::new();
    decimal_into((ordinal + 1) as u64, &mut digits);
    assert(digits@ =~= decimal((ordinal + 1) as nat));
    let mut out: Vec<char> = Vec::new();
    out.push('S');
    let ghost d = digits@;
    if digits.len() < 7 {
        let pad = 7 - digits.len();
        let mut k: usize = 0;
        while k < pad
            invariant
                0 <= k <= pad,
                pad == 7 - d.len(),
                out@ == seq!['S'] + Seq::new(k as nat, |i: int| '0'),
            decreases pad - k,
        {
            out.push('0');
            assert(out@ =~= seq!['S'] + Seq::new((k + 1) as nat, |i: int| '0'));
            k = k + 1;
        }
    }
    let ghost before = out@;
    out.append(&mut digits);
    proof {
        reveal_strlit("S");
        assert(out@ =~= "S"@ + pad7(d));
    }
    string_from_chars(out.as_slice())
}

fn copy_references(v: &Vec<SourceStringReference>) -> (r: Vec<SourceStringReference>)
    ensures
        reference_views(r@) == reference_views(v@),
{
    let mut out: Vec<SourceStringReference> = Vec::new();
    let mut i: usize = 0;
    while i < v.len()
        invariant
            0 <= i <= v@.len(),
            reference_views(out@) == reference_views(v@.take(i as int)),
        decreases v@.len() - i,
    {
        let x = &v[i];
        let ghost before = out@;
        out.push(SourceStringReference {
            fragment_index: x.fragment_index,
            fragment_type: x.fragment_type,
            entity_id: x.entity_id,
            content_fragment_alias: copy_opt(&x.content_fragment_alias),
            source_path: owned(x.source_path.as_str()),
            parent_field_ids: copy_ids(&x.parent_field_ids),
            role_candidate: owned(x.role_candidate.as_str()),
        });
        assert(out@[out@.len() - 1]@ == v@[i as int]@);
        assert(out@ =~= before.push(out@[out@.len() - 1]));
        assert(v@.take(i + 1) =~= v@.take(i as int).push(v@[i as int]));
        assert(reference_views(before.push(out@[out@.len() - 1])) =~= reference_views(before).push(v@[i as int]@));
        assert(reference_views(v@.take(i as int).push(v@[i as int])) =~= reference_views(v@.take(i as int)).push(v@[i as int]@));
        assert(reference_views(out@) =~= reference_views(v@.take(i + 1)));
        i = i + 1;
    }
    assert(v@.take(v@.len() as int) =~= v@);
    out
}

fn copy_strings(v: &Vec<String>) -> (r: Vec<String>)
    ensures
        string_views(r@) == string_views(v@),
{
    let mut out: Vec<String> = Vec::new();
    let mut i: usize = 0;
    while i < v.len()
        invariant
            0 <= i <= v@.len(),
            string_views(out@) == string_views(v@.take(i as int)),
        decreases v@.len() - i,
    {
        let ghost before = out@;
        out.push(owned(v[i].as_str()));
        assert(out@ =~= before.push(out@[out@.len() - 1]));
        assert(v@.take(i + 1) =~= v@.take(i as int).push(v@[i as int]));
        assert(string_views(before.push(out@[out@.len() - 1])) =~= string_views(before).push(v@[i as int]@));
        assert(string_views(v@.take(i as int).push(v@[i as int])) =~= string_views(v@.take(i as int)).push(v@[i as int]@));
        assert(string_views(out@) =~= string_views(v@.take(i + 1)));
        i = i + 1;
    }
    assert(v@.take(v@.len() as int) =~= v@);
    out
}

/// The inventory row of the `ordinal`-th string; the text is kept only when
/// `include_private_strings` asks for it.
pub fn source_string_inventory_row(
    entry: &SourceStringEntry,
    ordinal: usize,
    linked_references: Vec<SourceStringReference>,
    include_private_strings: bool,
) -> (r: SourceStringRow)
    requires
        ordinal < usize::MAX,
    ensures
        row_ok(r, *entry, ordinal as nat, reference_views(linked_references@), include_private_strings),
{
    let digest = sha256_digest(entry.text.as_str().as_bytes());
    let path_chars = chars_of(entry.source_path.as_str());
    let role = if entry.string_table_id.is_some() {
        owned("string_table_entry_candidate")
    } else if chars_end_with(&path_chars, ".$584") {
        owned("direct_text_field_584_candidate")
    } else {
        owned("unclassified_raw_string")
    };
    let length = chars_of(entry.text.as_str()).len();
    let private_text = if include_private_strings { Some(owned(entry.text.as_str())) } else { None };
    let count = linked_references.len();
    SourceStringRow {
        string_id: string_id(ordinal),
        fragment_index: entry.fragment_index,
        fragment_type: entry.fragment_type,
        entity_id: entry.entity_id,
        content_fragment_alias: copy_opt(&entry.content_fragment_alias),
        source_path: owned(entry.source_path.as_str()),
        parent_field_ids: copy_ids(&entry.parent_field_ids),
        role_candidate: role,
        unicode_scalar_length: length,
        sha256_raw_audit_only: hex_lower(digest.as_slice()),
        string_table_id: entry.string_table_id,
        string_table_index: entry.string_table_index,
        matched_query_ids: copy_strings(&entry.matched_query_ids),
        exact_query_ids: copy_strings(&entry.exact_query_ids),
        reference_count: count,
        references: linked_references,
        private_text,
    }
}

/// The content fragments (`$259`) in reading order, each with its alias
/// `F001`, `F002`, ...; and how many there are.
pub open spec fn alias_fold(order: Seq<usize>, fs: Seq<FragmentView>) -> (Map<usize, Seq<char>>, nat)
    decreases order.len(),
{
    if order.len() == 0 {
        (Map::empty(), 0)
    } else {
        let prev = alias_fold(order.drop_last(), fs);
        let i = order.last();
        if i < fs.len() && fs[i as int].fragment_type == CONTENT_FRAGMENT_TYPE {
            (prev.0.insert(i, alias_spec("F"@, prev.1 + 1)), prev.1 + 1)
        } else {
            prev
        }
    }
}

pub open spec fn content_aliases(m: NativeModelView) -> Map<usize, Seq<char>> {
    alias_fold(content_order_spec(m), m.fragments).0
}

/// The table id of a string pool: its `$4` symbol when that fits, else its
/// entity id.
pub open spec fn pool_table_id(f: FragmentView) -> Option<u32> {
    if f.fragment_type == STRING_POOL_FRAGMENT_TYPE {
        Some(match symbol_field(f.value, FIELD_FRAGMENT_ID) {
            Some(t) => if t <= u32::MAX { t as u32 } else { f.entity_id },
            None => f.entity_id,
        })
    } else {
        None
    }
}

pub open spec fn fragment_context(i: int, f: FragmentView, aliases: Map<usize, Seq<char>>, table: Option<u32>) -> ContextView {
    ContextView {
        fragment_index: i as usize,
        fragment_type: f.fragment_type,
        entity_id: f.entity_id,
        content_fragment_alias: if aliases.contains_key(i as usize) { Some(aliases[i as usize]) } else { None },
        string_table_id: table,
    }
}

/// The references of the first `k` fragments.
pub open spec fn book_references(fs: Seq<FragmentView>, k: int, aliases: Map<usize, Seq<char>>, tables: Map<u32, Seq<Seq<char>>>) -> Map<(u32, usize), Seq<ReferenceView>>
    decreases k,
{
    if k <= 0 {
        Map::empty()
    } else {
        refs_walk(
            book_references(fs, k - 1, aliases, tables),
            fs[k - 1].value,
            Seq::empty(),
            Seq::empty(),
            fragment_context(k - 1, fs[k - 1], aliases, None),
            tables,
        )
    }
}

/// The strings of the first `k` fragments.
pub open spec fn book_entries(fs: Seq<FragmentView>, k: int, aliases: Map<usize, Seq<char>>, m: Option<MatcherView>) -> Seq<EntryView>
    decreases k,
{
    if k <= 0 {
        Seq::empty()
    } else {
        book_entries(fs, k - 1, aliases, m) + entries_walk(
            fs[k - 1].value,
            Seq::empty(),
            Seq::empty(),
            fragment_context(k - 1, fs[k - 1], aliases, pool_table_id(fs[k - 1])),
            m,
        )
    }
}

/// The references linked to a string: those naming its pool entry.
pub open spec fn linked_references(e: EntryView, refs: Map<(u32, usize), Seq<ReferenceView>>) -> Seq<ReferenceView> {
    match (e.string_table_id, e.string_table_index) {
        (Some(t), Some(i)) => listed(refs, (t, i)),
        _ => Seq::empty(),
    }
}

/// A row describes entry `e`, the `ordinal`-th string.
pub open spec fn row_describes(r: SourceStringRow, e: EntryView, ordinal: nat, linked: Seq<ReferenceView>, include_private: bool) -> bool {
    &&& r.string_id@ == string_id_spec(ordinal)
    &&& r.fragment_index == e.fragment_index
    &&& r.fragment_type == e.fragment_type
    &&& r.entity_id == e.entity_id
    &&& opt_string_view(r.content_fragment_alias) == e.content_fragment_alias
    &&& r.source_path@ == e.source_path
    &&& r.parent_field_ids@ == e.parent_field_ids
    &&& r.role_candidate@ == string_role(e)
    &&& r.unicode_scalar_length == e.text.len()
    &&& r.sha256_raw_audit_only@ == hex_spec(sha256(vstd::utf8::encode_utf8(e.text)))
    &&& r.string_table_id == e.string_table_id
    &&& r.string_table_index == e.string_table_index
    &&& string_views(r.matched_query_ids@).to_set() == e.matched_query_ids
    &&& sorted_unique(string_views(r.matched_query_ids@))
    &&& string_views(r.exact_query_ids@).to_set() == e.exact_query_ids
    &&& sorted_unique(string_views(r.exact_query_ids@))
    &&& r.reference_count == linked.len()
    &&& reference_views(r.references@) == linked
    &&& opt_string_view(r.private_text) == if include_private { Some(e.text) } else { None }
}

/// The query ids some string matched.
pub open spec fn matched_union(es: Seq<EntryView>) -> Set<Seq<char>>
    decreases es.len(),
{
    if es.len() == 0 {
        Set::empty()
    } else {
        matched_union(es.drop_last()).union(es.last().matched_query_ids)
    }
}

/// The ids of the queries no string matched, in query order.
pub open spec fn unmatched_ids(qs: Seq<(Seq<char>, Seq<char>, bool)>, matched: Set<Seq<char>>) -> Seq<Seq<char>>
    decreases qs.len(),
{
    if qs.len() == 0 {
        Seq::empty()
    } else {
        let before = unmatched_ids(qs.drop_last(), matched);
        if matched.contains(qs.last().0) { before } else { before.push(qs.last().0) }
    }
}

/// The source-string inventory of one input.
#[derive(Debug)]
pub struct SourceStringInventory {
    pub schema_version: u32,
    pub input_sha256_audit_only: String,
    pub coverage: String,
    pub inventory_mode: String,
    pub query_count: Option<usize>,
    pub matched_query_ids: Vec<String>,
    pub unmatched_query_ids: Vec<String>,
    pub private_strings_included: bool,
    pub fragment_count: usize,
    pub string_count: usize,
    pub strings: Vec<SourceStringRow>,
}

pub open spec fn coverage_note() -> Seq<char> {
    "decoded Ion strings in parsed fragment payloads; opaque/raw payloads and undecoded entity metadata are excluded"@
}

pub open spec fn opt_queries(q: Option<&Vec<(String, String, bool)>>) -> Option<Seq<(Seq<char>, Seq<char>, bool)>> {
    match q {
        Some(v) => Some(query_views(v@)),
        None => None,
    }
}

pub open spec fn matcher_of(q: Option<Seq<(Seq<char>, Seq<char>, bool)>>) -> Option<MatcherView> {
    match q {
        Some(v) => Some((queries_of(v, true), queries_of(v, false))),
        None => None,
    }
}

/// The inventory of the parsed book `m` read from `bytes`.
pub open spec fn inventory_ok(
    r: SourceStringInventory,
    bytes: Seq<u8>,
    m: NativeModelView,
    include_private: bool,
    queries: Option<Seq<(Seq<char>, Seq<char>, bool)>>,
) -> bool {
    let aliases = content_aliases(m);
    let entries = book_entries(m.fragments, m.fragments.len() as int, aliases, matcher_of(queries));
    let refs = book_references(m.fragments, m.fragments.len() as int, aliases, m.string_tables);
    let matched = matched_union(entries);
    &&& r.schema_version == 1
    &&& r.input_sha256_audit_only@ == hex_spec(sha256(bytes))
    &&& r.coverage@ == coverage_note()
    &&& r.inventory_mode@ == (if queries is Some { "query_matches_only"@ } else { "complete"@ })
    &&& r.query_count == match queries { Some(q) => Some(q.len() as usize), None => None }
    &&& string_views(r.matched_query_ids@).to_set() == matched
    &&& sorted_unique(string_views(r.matched_query_ids@))
    &&& string_views(r.unmatched_query_ids@) == match queries { Some(q) => unmatched_ids(q, matched), None => Seq::empty() }
    &&& r.private_strings_included == include_private
    &&& r.fragment_count == m.fragments.len()
    &&& r.string_count == entries.len()
    &&& r.strings@.len() == entries.len()
    &&& forall|j: int| 0 <= j < entries.len() ==> #[trigger] row_describes(r.strings@[j], entries[j], j as nat, linked_references(entries[j], refs), include_private)
}

pub open spec fn source_header_message() -> Seq<char> {
    "source-string audit requires an Amazon CONT KFX input"@
}

fn content_alias_map(model: &NativeModel) -> (r: BTreeMap<usize, String>)
    ensures
        r@.map_values(|s: String| s@) == content_aliases(model@),
{
    let ghost fs = model@.fragments;
    proof {
        assert(fragment_views(model.fragments@) == fs);
    }
    let order: Vec<usize> = match ordered_content_fragment_indices(model) {
        Some(v) => v,
        None => fragment_positions(&model.fragments, CONTENT_FRAGMENT_TYPE),
    };
    let mut aliases: BTreeMap<usize, String> = BTreeMap::new();
    let mut n: usize = 0;
    let mut i: usize = 0;
    assert(aliases@.map_values(|s: String| s@) =~= Map::<usize, Seq<char>>::empty());
    while i < order.len()
        invariant
            0 <= i <= order@.len(),
            order@ == content_order_spec(model@),
            fs == model@.fragments,
            fs.len() == model.fragments@.len(),
            aliases@.map_values(|s: String| s@) == alias_fold(order@.take(i as int), fs).0,
            n == alias_fold(order@.take(i as int), fs).1,
            n <= i,
        decreases order@.len() - i,
    {
        proof {
            assert(order@.take(i + 1).drop_last() =~= order@.take(i as int));
            assert(order@.take(i + 1).last() == order@[i as int]);
        }
        let index = order[i];
        if index < model.fragments.len() && model.fragments[index].fragment_type == CONTENT_FRAGMENT_TYPE {
            assert(fs[index as int] == model.fragments@[index as int]@);
            let ghost before = aliases@.map_values(|s: String| s@);
            let name = alias("F", n + 1);
            proof {
                reveal_strlit("F");
            }
            aliases.insert(index, name);
            n = n + 1;
            assert(aliases@.map_values(|s: String| s@) =~= before.insert(index, alias_spec("F"@, n as nat)));
        } else {
            proof {
                if index < fs.len() {
                    assert(fs[index as int] == model.fragments@[index as int]@);
                }
            }
        }
        i = i + 1;
    }
    assert(order@.take(order@.len() as int) =~= order@);
    aliases
}

fn alias_of(aliases: &BTreeMap<usize, String>, i: usize) -> (r: Option<String>)
    ensures
        opt_string_view(r) == if aliases@.map_values(|s: String| s@).contains_key(i) {
            Some(aliases@.map_values(|s: String| s@)[i])
        } else {
            None
        },
{
    broadcast use vstd::std_specs::btree::group_btree_axioms;
    match aliases.get(&i) {
        Some(a) => Some(owned(a.as_str())),
        None => None,
    }
}

fn pool_table_of(f: &crate::native::NativeFragment) -> (r: Option<u32>)
    ensures
        r == pool_table_id(f@),
{
    if f.fragment_type != STRING_POOL_FRAGMENT_TYPE {
        return None;
    }
    match symbol_field_of(&f.value, FIELD_FRAGMENT_ID) {
        Some(t) => if t <= 0xffff_ffff { Some(t as u32) } else { Some(f.entity_id) },
        None => Some(f.entity_id),
    }
}

fn linked_of(
    entry: &SourceStringEntry,
    refs: &BTreeMap<(u32, usize), Vec<SourceStringReference>>,
) -> (r: Vec<SourceStringReference>)
    ensures
        reference_views(r@) == linked_references(entry.entry_view(), references_view(refs@)),
{
    broadcast use vstd::std_specs::btree::group_btree_axioms;
    match (entry.string_table_id, entry.string_table_index) {
        (Some(t), Some(i)) => match refs.get(&(t, i)) {
            Some(list) => copy_references(list),
            None => {
                let r: Vec<SourceStringReference> = Vec::new();
                assert(reference_views(r@) =~= Seq::<ReferenceView>::empty());
                r
            },
        },
        _ => {
            let r: Vec<SourceStringReference> = Vec::new();
            assert(reference_views(r@) =~= Seq::<ReferenceView>::empty());
            r
        },
    }
}

/// The inventory: every string (or, with queries, every string that
/// matches one), with the references naming it.
#[verifier::rlimit(40)]
fn audit_source_strings_impl(
    bytes: &[u8],
    include_private_strings: bool,
    queries: Option<&Vec<(String, String, bool)>>,
) -> (r: Result<SourceStringInventory, AmazonKfxError>)
    ensures
        !has_cont_prefix(bytes@) ==> (r matches Err(e) && e@ == KfxErrorView::InvalidHeader(source_header_message())),
        has_cont_prefix(bytes@) ==> (native_spec(seq![bytes@], ParseMode::Compatible) matches Err(e)
            ==> (r matches Err(x) && x@ == e)),
        has_cont_prefix(bytes@) ==> (native_spec(seq![bytes@], ParseMode::Compatible) matches Ok(m)
            ==> (m.drm_detected ==> (r matches Err(x) && x@ == KfxErrorView::ProtectedContent))),
        has_cont_prefix(bytes@) ==> (native_spec(seq![bytes@], ParseMode::Compatible) matches Ok(m)
            ==> (!m.drm_detected ==> (r matches Ok(a) && inventory_ok(a, bytes@, m, include_private_strings, opt_queries(queries))))),
{
    if !(bytes.len() >= 4 && bytes[0] == 0x43 && bytes[1] == 0x4f && bytes[2] == 0x4e && bytes[3] == 0x54) {
        return Err(AmazonKfxError::InvalidHeader(owned("source-string audit requires an Amazon CONT KFX input")));
    }
    let model = match parse_native(bytes, ParseMode::Compatible) {
        Ok(m) => m,
        Err(e) => return Err(e),
    };
    assert(model.drm_detected == model@.drm_detected);
    if model.drm_detected {
        return Err(AmazonKfxError::ProtectedContent);
    }
    let ghost m = model@;
    let ghost fs = m.fragments;
    let ghost tv = m.string_tables;
    proof {
        assert(fragment_views(model.fragments@) == fs);
    }
    let aliases = content_alias_map(&model);
    let ghost av = aliases@.map_values(|s: String| s@);
    let matcher = match queries {
        Some(q) => Some(SourceStringQueryMatcher::new(q)),
        None => None,
    };
    let ghost mv = matcher_of(opt_queries(queries));
    let mref = matcher.as_ref();
    assert(matcher_view(mref) == mv);
    let mut path: Vec<IonAuditPathToken> = Vec::new();
    let mut parents: Vec<u64> = Vec::new();
    let mut refs: BTreeMap<(u32, usize), Vec<SourceStringReference>> = BTreeMap::new();
    assert(references_view(refs@) =~= Map::<(u32, usize), Seq<ReferenceView>>::empty());
    let mut i: usize = 0;
    while i < model.fragments.len()
        invariant
            0 <= i <= model.fragments@.len(),
            m == model@,
            fs == m.fragments,
            fs.len() == model.fragments@.len(),
            tv == m.string_tables,
            tv == table_views(model.string_tables@),
            av == aliases@.map_values(|s: String| s@),
            path@ == Seq::<IonAuditPathToken>::empty(),
            parents@ == Seq::<u64>::empty(),
            references_view(refs@) == book_references(fs, i as int, av, tv),
        decreases model.fragments@.len() - i,
    {
        let f = &model.fragments[i];
        assert(fs[i as int] == f@);
        let context = SourceStringFragmentContext {
            fragment_index: i,
            fragment_type: f.fragment_type,
            entity_id: f.entity_id,
            content_fragment_alias: alias_of(&aliases, i),
            string_table_id: None,
        };
        assert(context.context_view() == fragment_context(i as int, fs[i as int], av, None));
        collect_source_string_references(&f.value, &context, &model.string_tables, &mut path, &mut parents, &mut refs);
        i = i + 1;
    }
    let ghost rv = references_view(refs@);
    let mut entries: Vec<SourceStringEntry> = Vec::new();
    assert(entry_views(entries@) =~= Seq::<EntryView>::empty());
    let mut i: usize = 0;
    while i < model.fragments.len()
        invariant
            0 <= i <= model.fragments@.len(),
            m == model@,
            fs == m.fragments,
            fs.len() == model.fragments@.len(),
            av == aliases@.map_values(|s: String| s@),
            mv == matcher_view(mref),
            path@ == Seq::<IonAuditPathToken>::empty(),
            parents@ == Seq::<u64>::empty(),
            entry_views(entries@) == book_entries(fs, i as int, av, mv),
            forall|k: int| 0 <= k < entries@.len() ==> (#[trigger] entries@[k]).ids_sorted(),
        decreases model.fragments@.len() - i,
    {
        let f = &model.fragments[i];
        assert(fs[i as int] == f@);
        let context = SourceStringFragmentContext {
            fragment_index: i,
            fragment_type: f.fragment_type,
            entity_id: f.entity_id,
            content_fragment_alias: alias_of(&aliases, i),
            string_table_id: pool_table_of(f),
        };
        assert(context.context_view() == fragment_context(i as int, fs[i as int], av, pool_table_id(fs[i as int])));
        collect_source_string_entries(&f.value, &context, mref, &mut path, &mut parents, &mut entries);
        i = i + 1;
    }
    let ghost ev = entry_views(entries@);
    let mut rows: Vec<SourceStringRow> = Vec::new();
    let mut matched = StringSet::new();
    assert(matched.set() =~= Set::<Seq<char>>::empty());
    let mut j: usize = 0;
    while j < entries.len()
        invariant
            0 <= j <= entries@.len(),
            ev == entry_views(entries@),
            ev.len() == entries@.len(),
            rv == references_view(refs@),
            forall|k: int| 0 <= k < entries@.len() ==> (#[trigger] entries@[k]).ids_sorted(),
            rows@.len() == j,
            forall|k: int| 0 <= k < j ==> #[trigger] row_describes(rows@[k], ev[k], k as nat, linked_references(ev[k], rv), include_private_strings),
            matched.wf(),
            matched.set() == matched_union(ev.take(j as int)),
        decreases entries@.len() - j,
    {
        let entry = &entries[j];
        assert(ev[j as int] == entry.entry_view());
        let linked = linked_of(entry, &refs);
        let row = source_string_inventory_row(entry, j, linked, include_private_strings);
        let ghost m0 = matched.set();
        let mut k: usize = 0;
        while k < entry.matched_query_ids.len()
            invariant
                0 <= k <= entry.matched_query_ids@.len(),
                matched.wf(),
                matched.set() == m0.union(string_views(entry.matched_query_ids@.take(k as int)).to_set()),
            decreases entry.matched_query_ids@.len() - k,
        {
            matched.insert_str(entry.matched_query_ids[k].as_str());
            proof {
                let a = string_views(entry.matched_query_ids@.take(k as int));
                let b = string_views(entry.matched_query_ids@.take(k + 1));
                assert(b =~= a.push(entry.matched_query_ids@[k as int]@));
                assert(b.to_set() =~= a.to_set().insert(entry.matched_query_ids@[k as int]@)) by {
                    broadcast use vstd::seq_lib::group_seq_properties;
                }
                assert(matched.set() =~= m0.union(b.to_set()));
            }
            k = k + 1;
        }
        proof {
            assert(entry.matched_query_ids@.take(entry.matched_query_ids@.len() as int) =~= entry.matched_query_ids@);
            assert(ev.take(j + 1).drop_last() =~= ev.take(j as int));
            assert(ev.take(j + 1).last() == ev[j as int]);
        }
        rows.push(row);
        j = j + 1;
    }
    assert(ev.take(ev.len() as int) =~= ev);
    let mut unmatched: Vec<String> = Vec::new();
    let query_count = match queries {
        Some(q) => {
            let ghost qv = query_views(q@);
            let mut k: usize = 0;
            while k < q.len()
                invariant
                    0 <= k <= q@.len(),
                    qv == query_views(q@),
                    matched.wf(),
                    string_views(unmatched@) == unmatched_ids(qv.take(k as int), matched.set()),
                decreases q@.len() - k,
            {
                proof {
                    assert(qv.take(k + 1).drop_last() =~= qv.take(k as int));
                    assert(qv.take(k + 1).last() == qv[k as int]);
                }
                if !matched.contains(q[k].0.as_str()) {
                    let ghost before = unmatched@;
                    unmatched.push(owned(q[k].0.as_str()));
                    assert(string_views(unmatched@) =~= string_views(before).push(q@[k as int].0@));
                }
                k = k + 1;
            }
            assert(qv.take(qv.len() as int) =~= qv);
            Some(q.len())
        },
        None => {
            assert(string_views(unmatched@) =~= Seq::<Seq<char>>::empty());
            None
        },
    };
    let digest = sha256_digest(bytes);
    let mode = if queries.is_some() { owned("query_matches_only") } else { owned("complete") };
    let matched_ids = matched.to_vec();
    let string_count = rows.len();
    Ok(SourceStringInventory {
        schema_version: 1,
        input_sha256_audit_only: hex_lower(digest.as_slice()),
        coverage: owned("decoded Ion strings in parsed fragment payloads; opaque/raw payloads and undecoded entity metadata are excluded"),
        inventory_mode: mode,
        query_count,
        matched_query_ids: matched_ids,
        unmatched_query_ids: unmatched,
        private_strings_included: include_private_strings,
        fragment_count: model.fragments.len(),
        string_count,
        strings: rows,
    })
}

/// The complete source-string inventory of one input; the strings
/// themselves only when `include_private_strings` asks for them.
pub fn audit_source_strings(bytes: &[u8], include_private_strings: bool) -> (r: Result<SourceStringInventory, AmazonKfxError>)
    ensures
        !has_cont_prefix(bytes@) ==> (r matches Err(e) && e@ == KfxErrorView::InvalidHeader(source_header_message())),
        has_cont_prefix(bytes@) ==> (native_spec(seq![bytes@], ParseMode::Compatible) matches Err(e)
            ==> (r matches Err(x) && x@ == e)),
        has_cont_prefix(bytes@) ==> (native_spec(seq![bytes@], ParseMode::Compatible) matches Ok(m)
            ==> (m.drm_detected ==> (r matches Err(x) && x@ == KfxErrorView::ProtectedContent))),
        has_cont_prefix(bytes@) ==> (native_spec(seq![bytes@], ParseMode::Compatible) matches Ok(m)
            ==> (!m.drm_detected ==> (r matches Ok(a) && inventory_ok(a, bytes@, m, include_private_strings, None)))),
{
    audit_source_strings_impl(bytes, include_private_strings, None)
}

/// The rows of the inventory that match one or more `(query id, query,
/// exact only)` queries; the queries themselves are never copied into it.
pub fn audit_source_string_matches(bytes: &[u8], queries: &Vec<(String, String, bool)>) -> (r: Result<SourceStringInventory, AmazonKfxError>)
    ensures
        !has_cont_prefix(bytes@) ==> (r matches Err(e) && e@ == KfxErrorView::InvalidHeader(source_header_message())),
        has_cont_prefix(bytes@) ==> (native_spec(seq![bytes@], ParseMode::Compatible) matches Err(e)
            ==> (r matches Err(x) && x@ == e)),
        has_cont_prefix(bytes@) ==> (native_spec(seq![bytes@], ParseMode::Compatible) matches Ok(m)
            ==> (m.drm_detected ==> (r matches Err(x) && x@ == KfxErrorView::ProtectedContent))),
        has_cont_prefix(bytes@) ==> (native_spec(seq![bytes@], ParseMode::Compatible) matches Ok(m)
            ==> (!m.drm_detected ==> (r matches Ok(a) && inventory_ok(a, bytes@, m, false, Some(query_views(queries@)))))),
{
    audit_source_strings_impl(bytes, false, Some(queries))
}

/// Every entry a query walk keeps matched some query.
pub open spec fn all_matched(es: Seq<EntryView>) -> bool {
    forall|i: int| 0 <= i < es.len() ==> !(#[trigger] es[i]).matched_query_ids.is_empty()
}

proof fn lemma_all_matched_append(a: Seq<EntryView>, b: Seq<EntryView>)
    requires
        all_matched(a),
        all_matched(b),
    ensures
        all_matched(a + b),
{
    assert forall|i: int| 0 <= i < (a + b).len() implies !(#[trigger] (a + b)[i]).matched_query_ids.is_empty() by {
        if i < a.len() {
            assert((a + b)[i] == a[i]);
        } else {
            assert((a + b)[i] == b[i - a.len()]);
        }
    }
}

proof fn lemma_walk_matched(v: IonModel, path: Seq<IonAuditPathToken>, parents: Seq<u64>, ctx: ContextView, q: MatcherView)
    ensures
        all_matched(entries_walk(v, path, parents, ctx, Some(q))),
    decreases v,
{
    match v {
        IonModel::Struct(fields) => lemma_walk_fields_matched(fields, path, parents, ctx, q),
        IonModel::List(items) => lemma_walk_items_matched(items, path, parents, ctx, q),
        IonModel::SExp(items) => lemma_walk_items_matched(items, path, parents, ctx, q),
        IonModel::Annotation { value, .. } => lemma_walk_matched(*value, path, parents, ctx, q),
        _ => {},
    }
}

proof fn lemma_walk_items_matched(s: Seq<IonModel>, path: Seq<IonAuditPathToken>, parents: Seq<u64>, ctx: ContextView, q: MatcherView)
    ensures
        all_matched(entries_walk_items(s, path, parents, ctx, Some(q))),
    decreases s,
{
    if s.len() > 0 {
        lemma_walk_items_matched(s.drop_last(), path, parents, ctx, q);
        lemma_walk_matched(s.last(), path.push(IonAuditPathToken::Index((s.len() - 1) as usize)), parents, ctx, q);
        lemma_all_matched_append(
            entries_walk_items(s.drop_last(), path, parents, ctx, Some(q)),
            entries_walk(s.last(), path.push(IonAuditPathToken::Index((s.len() - 1) as usize)), parents, ctx, Some(q)),
        );
    }
}

proof fn lemma_walk_fields_matched(s: Seq<(u64, IonModel)>, path: Seq<IonAuditPathToken>, parents: Seq<u64>, ctx: ContextView, q: MatcherView)
    ensures
        all_matched(entries_walk_fields(s, path, parents, ctx, Some(q))),
    decreases s,
{
    if s.len() > 0 {
        assert(decreases_to!(s => s[s.len() - 1].1));
        let f = s.last();
        lemma_walk_fields_matched(s.drop_last(), path, parents, ctx, q);
        lemma_walk_matched(f.1, path.push(IonAuditPathToken::Field(f.0)), parents.push(f.0), ctx, q);
        lemma_all_matched_append(
            entries_walk_fields(s.drop_last(), path, parents, ctx, Some(q)),
            entries_walk(f.1, path.push(IonAuditPathToken::Field(f.0)), parents.push(f.0), ctx, Some(q)),
        );
    }
}

proof fn lemma_book_matched(fs: Seq<FragmentView>, k: int, aliases: Map<usize, Seq<char>>, q: MatcherView)
    ensures
        all_matched(book_entries(fs, k, aliases, Some(q))),
    decreases k,
{
    if k > 0 {
        lemma_book_matched(fs, k - 1, aliases, q);
        let ctx = fragment_context(k - 1, fs[k - 1], aliases, pool_table_id(fs[k - 1]));
        lemma_walk_matched(fs[k - 1].value, Seq::empty(), Seq::empty(), ctx, q);
        lemma_all_matched_append(book_entries(fs, k - 1, aliases, Some(q)), entries_walk(fs[k - 1].value, Seq::empty(), Seq::empty(), ctx, Some(q)));
    }
}

/// An inventory built for queries lists only strings that matched one of
/// them; one built without private strings shows no string's text.
pub proof fn lemma_inventory_keeps_text_private(
    r: SourceStringInventory,
    bytes: Seq<u8>,
    m: NativeModelView,
    include_private: bool,
    queries: Option<Seq<(Seq<char>, Seq<char>, bool)>>,
)
    requires
        inventory_ok(r, bytes, m, include_private, queries),
    ensures
        !include_private ==> forall|j: int| 0 <= j < r.strings@.len() ==> (#[trigger] r.strings@[j]).private_text is None,
        queries is Some ==> forall|j: int| 0 <= j < r.strings@.len() ==> (#[trigger] r.strings@[j]).matched_query_ids@.len() > 0,
{
    let aliases = content_aliases(m);
    let entries = book_entries(m.fragments, m.fragments.len() as int, aliases, matcher_of(queries));
    let refs = book_references(m.fragments, m.fragments.len() as int, aliases, m.string_tables);
    assert forall|j: int| 0 <= j < r.strings@.len() implies !include_private ==> (#[trigger] r.strings@[j]).private_text is None by {
        assert(row_describes(r.strings@[j], entries[j], j as nat, linked_references(entries[j], refs), include_private));
    }
    if let Some(q) = queries {
        let mv = (queries_of(q, true), queries_of(q, false));
        lemma_book_matched(m.fragments, m.fragments.len() as int, aliases, mv);
        assert forall|j: int| 0 <= j < r.strings@.len() implies (#[trigger] r.strings@[j]).matched_query_ids@.len() > 0 by {
            assert(row_describes(r.strings@[j], entries[j], j as nat, linked_references(entries[j], refs), include_private));
            assert(!entries[j].matched_query_ids.is_empty());
            if r.strings@[j].matched_query_ids@.len() == 0 {
                assert(string_views(r.strings@[j].matched_query_ids@).to_set() =~= Set::<Seq<char>>::empty());
            }
        }
    }
}

} // verus!
