//! How the text of one content node splits into inline runs: superscript
//! markers, ruby, links and footnote references, each over a range of the
//! text's characters, and plain text between them.
use vstd::prelude::*;
use crate::links::{KfxTextStyleEvent, KfxTextLinkRange};
use crate::ruby::KfxRubyAnnotation;
use crate::text::{chars_of, string_from_chars, decimal, decimal_string, join2};
use crate::native::{KfxLinkTarget, LinkTargetView, link_views};
use std::collections::BTreeMap;
use crate::error::{AmazonKfxError, KfxErrorView};

verus! {

/// The style of a superscript marker.
pub const SUPERSCRIPT_STYLE_SYMBOL: u64 = 617;

/// The kinds of inline range, in the order that ranges with equal bounds
/// are taken.
#[derive(Clone, Copy, Debug, PartialEq, Eq, Structural)]
pub enum InlineKind {
    Link,
    Ruby,
    Footnote,
    Sup,
}

pub open spec fn kind_rank(k: InlineKind) -> int {
    match k {
        InlineKind::Link => 0,
        InlineKind::Ruby => 1,
        InlineKind::Footnote => 2,
        InlineKind::Sup => 3,
    }
}

/// A range of the text's characters and what it becomes: `text` is the href
/// of a link or footnote, or the reading of ruby; `target_symbol_id` is the
/// link target a footnote came from.
#[derive(Debug)]
pub struct InlineRange {
    pub start: usize,
    pub end: usize,
    pub kind: InlineKind,
    pub text: String,
    pub target_symbol_id: u64,
}

pub struct RangeView {
    pub start: usize,
    pub end: usize,
    pub kind: InlineKind,
    pub text: Seq<char>,
    pub target_symbol_id: u64,
}

impl View for InlineRange {
    type V = RangeView;

    open spec fn view(&self) -> RangeView {
        RangeView { start: self.start, end: self.end, kind: self.kind, text: self.text@, target_symbol_id: self.target_symbol_id }
    }
}

pub open spec fn range_views(s: Seq<InlineRange>) -> Seq<RangeView> {
    s.map_values(|r: InlineRange| r@)
}

pub open spec fn range(start: usize, end: usize, kind: InlineKind, text: Seq<char>, target: u64) -> RangeView {
    RangeView { start, end, kind, text, target_symbol_id: target }
}

/// The superscript range one style event marks, if any.
pub open spec fn sup_of(e: KfxTextStyleEvent, count: nat) -> Seq<RangeView> {
    match (e.style_symbol_id, e.text_offset, e.text_length) {
        (Some(617), Some(o), Some(l)) => if 0 <= o && 0 <= l && o <= usize::MAX && l <= usize::MAX && o + l <= usize::MAX
            && o < o + l && o + l <= count {
            seq![range(o as usize, (o + l) as usize, InlineKind::Sup, Seq::empty(), 0)]
        } else {
            Seq::empty()
        },
        _ => Seq::empty(),
    }
}

/// The superscript ranges the style events mark, in event order.
pub open spec fn sup_ranges(events: Seq<KfxTextStyleEvent>, count: nat) -> Seq<RangeView>
    decreases events.len(),
{
    if events.len() == 0 {
        Seq::empty()
    } else {
        sup_ranges(events.drop_last(), count) + sup_of(events.last(), count)
    }
}

/// The ruby range of one annotation, if it lies within the text.
pub open spec fn ruby_of(a: KfxRubyAnnotation, count: nat) -> Seq<RangeView> {
    if a.text_offset + a.text_length <= usize::MAX && a.text_offset < a.text_offset + a.text_length
        && a.text_offset + a.text_length <= count {
        seq![range(a.text_offset, (a.text_offset + a.text_length) as usize, InlineKind::Ruby, a.text@, 0)]
    } else {
        Seq::empty()
    }
}

/// The ruby ranges of the annotations, in order.
pub open spec fn ruby_ranges(annotations: Seq<KfxRubyAnnotation>, count: nat) -> Seq<RangeView>
    decreases annotations.len(),
{
    if annotations.len() == 0 {
        Seq::empty()
    } else {
        ruby_ranges(annotations.drop_last(), count) + ruby_of(annotations.last(), count)
    }
}

/// A superscript range covers `start .. end`.
pub open spec fn covers(r: RangeView, start: usize, end: usize) -> bool {
    r.kind == InlineKind::Sup && r.start <= start && end <= r.end
}

pub open spec fn has_cover(s: Seq<RangeView>, start: usize, end: usize) -> bool
    decreases s.len(),
{
    if s.len() == 0 {
        false
    } else {
        has_cover(s.drop_last(), start, end) || covers(s.last(), start, end)
    }
}

/// `s` without the superscript ranges that cover `start .. end`.
pub open spec fn drop_covers(s: Seq<RangeView>, start: usize, end: usize) -> Seq<RangeView>
    decreases s.len(),
{
    if s.len() == 0 {
        s
    } else {
        let prev = drop_covers(s.drop_last(), start, end);
        if covers(s.last(), start, end) { prev } else { prev.push(s.last()) }
    }
}

/// Adds one link range (resolved to `href`, clamped to the text): a link
/// inside a superscript marker becomes a footnote reference in its place.
pub open spec fn add_link(s: Seq<RangeView>, l: KfxTextLinkRange, href: Option<Seq<char>>, count: nat) -> Seq<RangeView> {
    match href {
        None => s,
        Some(h) => if l.text_offset + l.text_length > usize::MAX {
            s
        } else {
            let end = if l.text_offset + l.text_length <= count { (l.text_offset + l.text_length) as usize } else { count as usize };
            if l.text_offset < end {
                if has_cover(s, l.text_offset, end) {
                    drop_covers(s, l.text_offset, end).push(range(l.text_offset, end, InlineKind::Footnote, h, l.target_symbol_id))
                } else {
                    s.push(range(l.text_offset, end, InlineKind::Link, h, 0))
                }
            } else {
                s
            }
        },
    }
}

pub open spec fn add_links(s: Seq<RangeView>, links: Seq<KfxTextLinkRange>, hrefs: Seq<Option<Seq<char>>>, count: nat) -> Seq<RangeView>
    decreases links.len(),
{
    if links.len() == 0 {
        s
    } else {
        add_link(add_links(s, links.drop_last(), hrefs, count), links.last(), hrefs[links.len() - 1], count)
    }
}

/// The ranges before ordering: superscripts, ruby, then the links; a node
/// without link ranges links all its text to the node's own target.
pub open spec fn planned_ranges(
    count: nat,
    events: Seq<KfxTextStyleEvent>,
    annotations: Seq<KfxRubyAnnotation>,
    links: Seq<KfxTextLinkRange>,
    hrefs: Seq<Option<Seq<char>>>,
    block_href: Option<Seq<char>>,
) -> Seq<RangeView> {
    let s = add_links(sup_ranges(events, count) + ruby_ranges(annotations, count), links, hrefs, count);
    if links.len() == 0 {
        match block_href {
            Some(h) => s.push(range(0, count as usize, InlineKind::Link, h, 0)),
            None => s,
        }
    } else {
        s
    }
}

/// Ranges are taken by start, then end, then kind.
pub open spec fn before(a: RangeView, b: RangeView) -> bool {
    a.start < b.start || (a.start == b.start && (a.end < b.end || (a.end == b.end && kind_rank(a.kind) < kind_rank(b.kind))))
}

/// `x` placed after every range not taken after it (a stable insertion).
pub open spec fn insert_range_spec(s: Seq<RangeView>, x: RangeView) -> Seq<RangeView>
    decreases s.len(),
{
    if s.len() == 0 {
        seq![x]
    } else if before(x, s.last()) {
        insert_range_spec(s.drop_last(), x).push(s.last())
    } else {
        s.push(x)
    }
}

/// The ranges in order, equal keys in the order given.
pub open spec fn ordered_ranges(s: Seq<RangeView>) -> Seq<RangeView>
    decreases s.len(),
{
    if s.len() == 0 {
        s
    } else {
        insert_range_spec(ordered_ranges(s.drop_last()), s.last())
    }
}

/// One run of a node's text.
#[derive(Debug, PartialEq, Eq)]
pub enum KfxInlineRun {
    Text(String),
    Sup(String),
    Link { text: String, href: String },
    Footnote { text: String, href: String, link_target_symbol_id: u64 },
    Ruby { base: String, reading: String },
}

pub enum RunView {
    Text(Seq<char>),
    Sup(Seq<char>),
    Link(Seq<char>, Seq<char>),
    Footnote(Seq<char>, Seq<char>, u64),
    Ruby(Seq<char>, Seq<char>),
}

impl View for KfxInlineRun {
    type V = RunView;

    open spec fn view(&self) -> RunView {
        match self {
            KfxInlineRun::Text(t) => RunView::Text(t@),
            KfxInlineRun::Sup(t) => RunView::Sup(t@),
            KfxInlineRun::Link { text, href } => RunView::Link(text@, href@),
            KfxInlineRun::Footnote { text, href, link_target_symbol_id } => RunView::Footnote(text@, href@, *link_target_symbol_id),
            KfxInlineRun::Ruby { base, reading } => RunView::Ruby(base@, reading@),
        }
    }
}

pub open spec fn run_views(s: Seq<KfxInlineRun>) -> Seq<RunView> {
    s.map_values(|r: KfxInlineRun| r@)
}

pub open spec fn piece(r: RangeView, chars: Seq<char>) -> RunView {
    let t = chars.subrange(r.start as int, r.end as int);
    match r.kind {
        InlineKind::Sup => RunView::Sup(t),
        InlineKind::Link => RunView::Link(t, r.text),
        InlineKind::Footnote => RunView::Footnote(t, r.text, r.target_symbol_id),
        InlineKind::Ruby => RunView::Ruby(t, r.text),
    }
}

pub open spec fn text_run(out: Seq<RunView>, t: Seq<char>) -> Seq<RunView> {
    if t.len() == 0 { out } else { out.push(RunView::Text(t)) }
}

/// The runs of the ordered ranges from `cursor`: a range that starts before
/// the cursor is skipped; text between ranges, and after the last, is plain.
pub open spec fn runs_from(out: Seq<RunView>, ranges: Seq<RangeView>, chars: Seq<char>, cursor: int) -> Seq<RunView>
    decreases ranges.len(),
{
    if ranges.len() == 0 {
        text_run(out, chars.subrange(cursor, chars.len() as int))
    } else {
        let r = ranges[0];
        if r.start < cursor {
            runs_from(out, ranges.drop_first(), chars, cursor)
        } else {
            runs_from(
                text_run(out, chars.subrange(cursor, r.start as int)).push(piece(r, chars)),
                ranges.drop_first(),
                chars,
                r.end as int,
            )
        }
    }
}

/// The runs of a node's text.
pub open spec fn inline_runs_spec(
    chars: Seq<char>,
    events: Seq<KfxTextStyleEvent>,
    annotations: Seq<KfxRubyAnnotation>,
    links: Seq<KfxTextLinkRange>,
    hrefs: Seq<Option<Seq<char>>>,
    block_href: Option<Seq<char>>,
) -> Seq<RunView> {
    runs_from(Seq::empty(), ordered_ranges(planned_ranges(chars.len(), events, annotations, links, hrefs, block_href)), chars, 0)
}

fn sup_range_of(e: &KfxTextStyleEvent, count: usize) -> (r: Option<InlineRange>)
    ensures
        match r {
            Some(x) => sup_of(*e, count as nat) == seq![x@],
            None => sup_of(*e, count as nat) == Seq::<RangeView>::empty(),
        },
{
    match (e.style_symbol_id, e.text_offset, e.text_length) {
        (Some(617), Some(o), Some(l)) => {
            if o < 0 || l < 0 {
                return None;
            }
            let ou = o as u64;
            let lu = l as u64;
            if ou > usize::MAX as u64 || lu > usize::MAX as u64 {
                return None;
            }
            let start = ou as usize;
            let length = lu as usize;
            if start > usize::MAX - length {
                return None;
            }
            let end = start + length;
            if start < end && end <= count {
                Some(InlineRange { start, end, kind: InlineKind::Sup, text: String::new(), target_symbol_id: 0 })
            } else {
                None
            }
        },
        _ => None,
    }
}

/// Whether a superscript range among `ranges` covers `start .. end`.
fn find_cover(ranges: &Vec<InlineRange>, start: usize, end: usize) -> (r: bool)
    ensures
        r == has_cover(range_views(ranges@), start, end),
{
    let ghost v = range_views(ranges@);
    let mut i: usize = 0;
    let mut found = false;
    while i < ranges.len()
        invariant
            0 <= i <= ranges@.len(),
            v == range_views(ranges@),
            found == has_cover(v.take(i as int), start, end),
        decreases ranges@.len() - i,
    {
        proof {
            assert(v.take(i + 1).drop_last() =~= v.take(i as int));
        }
        let r = &ranges[i];
        if r.kind == InlineKind::Sup && r.start <= start && end <= r.end {
            found = true;
        }
        i = i + 1;
    }
    assert(v.take(i as int) =~= v);
    found
}

/// Removes the superscript ranges that cover `start .. end`.
fn remove_covers(ranges: Vec<InlineRange>, start: usize, end: usize) -> (r: Vec<InlineRange>)
    ensures
        range_views(r@) == drop_covers(range_views(ranges@), start, end),
{
    let ghost v = range_views(ranges@);
    let mut rest = ranges;
    let mut kept: Vec<InlineRange> = Vec::new();
    let ghost mut k: int = 0;
    proof {
        assert(range_views(rest@) =~= v.skip(0));
        assert(range_views(kept@) =~= drop_covers(v.take(0), start, end));
    }
    while rest.len() > 0
        invariant
            0 <= k <= v.len(),
            range_views(rest@) == v.skip(k),
            range_views(kept@) == drop_covers(v.take(k), start, end),
        decreases rest@.len(),
    {
        let ghost before = kept@;
        assert(v.skip(k).len() > 0);
        let ghost old_rest = rest@;
        proof {
            assert(range_views(old_rest)[0] == old_rest[0]@);
            assert(v.skip(k)[0] == v[k]);
        }
        let r = rest.remove(0);
        proof {
            assert(r@ == v[k]);
            assert(range_views(rest@) =~= range_views(old_rest).drop_first());
            assert(range_views(rest@) =~= v.skip(k + 1));
            assert(v.take(k + 1).drop_last() =~= v.take(k));
            assert(v.take(k + 1).last() == v[k]);
        }
        if r.kind == InlineKind::Sup && r.start <= start && end <= r.end {
        } else {
            kept.push(r);
            assert(range_views(kept@) =~= range_views(before).push(v[k]));
        }
        proof {
            k = k + 1;
        }
    }
    assert(v.take(k) =~= v);
    kept
}

/// The ranges of a node's text before ordering.
pub fn plan_inline_ranges(
    count: usize,
    events: &Vec<KfxTextStyleEvent>,
    annotations: &Vec<KfxRubyAnnotation>,
    links: &Vec<KfxTextLinkRange>,
    hrefs: &Vec<Option<String>>,
    block_href: Option<String>,
) -> (r: Vec<InlineRange>)
    requires
        hrefs@.len() == links@.len(),
    ensures
        range_views(r@) == planned_ranges(
            count as nat,
            events@,
            annotations@,
            links@,
            hrefs@.map_values(|h: Option<String>| crate::decode::opt_string_view(h)),
            crate::decode::opt_string_view(block_href),
        ),
{
    let ghost hv = hrefs@.map_values(|h: Option<String>| crate::decode::opt_string_view(h));
    let mut ranges: Vec<InlineRange> = Vec::new();
    let mut i: usize = 0;
    proof {
        assert(range_views(ranges@) =~= sup_ranges(events@.take(0), count as nat));
    }
    while i < events.len()
        invariant
            0 <= i <= events@.len(),
            range_views(ranges@) == sup_ranges(events@.take(i as int), count as nat),
        decreases events@.len() - i,
    {
        let ghost before = ranges@;
        proof {
            assert(events@.take(i + 1).drop_last() =~= events@.take(i as int));
            assert(events@.take(i + 1).last() == events@[i as int]);
        }
        match sup_range_of(&events[i], count) {
            Some(x) => {
                ranges.push(x);
                assert(range_views(ranges@) =~= range_views(before) + seq![x@]);
            },
            None => {
                assert(range_views(before) + Seq::<RangeView>::empty() =~= range_views(before));
            },
        }
        i = i + 1;
    }
    assert(events@.take(i as int) =~= events@);
    let ghost sups = range_views(ranges@);
    let mut j: usize = 0;
    proof {
        assert(sups + ruby_ranges(annotations@.take(0), count as nat) =~= sups);
    }
    while j < annotations.len()
        invariant
            0 <= j <= annotations@.len(),
            range_views(ranges@) == sups + ruby_ranges(annotations@.take(j as int), count as nat),
        decreases annotations@.len() - j,
    {
        let ghost before = ranges@;
        let a = &annotations[j];
        proof {
            assert(annotations@.take(j + 1).drop_last() =~= annotations@.take(j as int));
            assert(annotations@.take(j + 1).last() == *a);
        }
        if a.text_offset <= usize::MAX - a.text_length {
            let end = a.text_offset + a.text_length;
            if a.text_offset < end && end <= count {
                ranges.push(InlineRange { start: a.text_offset, end, kind: InlineKind::Ruby, text: crate::text::owned(a.text.as_str()), target_symbol_id: 0 });
                assert(range_views(ranges@) =~= range_views(before).push(range(a.text_offset, end, InlineKind::Ruby, a.text@, 0)));
                assert(range_views(ranges@) =~= range_views(before) + ruby_of(*a, count as nat));
            } else {
                assert(range_views(ranges@) =~= range_views(before) + ruby_of(*a, count as nat));
            }
        } else {
            assert(range_views(ranges@) =~= range_views(before) + ruby_of(*a, count as nat));
        }
        proof {
            assert(sups + ruby_ranges(annotations@.take(j + 1), count as nat) =~= sups + ruby_ranges(annotations@.take(j as int), count as nat) + ruby_of(*a, count as nat));
        }
        j = j + 1;
    }
    assert(annotations@.take(j as int) =~= annotations@);
    let ghost base = range_views(ranges@);
    let mut k: usize = 0;
    proof {
        assert(links@.take(0) =~= Seq::<KfxTextLinkRange>::empty());
    }
    while k < links.len()
        invariant
            0 <= k <= links@.len(),
            hrefs@.len() == links@.len(),
            hv == hrefs@.map_values(|h: Option<String>| crate::decode::opt_string_view(h)),
            range_views(ranges@) == add_links(base, links@.take(k as int), hv, count as nat),
        decreases links@.len() - k,
    {
        let l = links[k];
        proof {
            assert(links@.take(k + 1).drop_last() =~= links@.take(k as int));
            assert(links@.take(k + 1).last() == l);
            assert(hv[k as int] == crate::decode::opt_string_view(hrefs@[k as int]));
        }
        match &hrefs[k] {
            Some(h) => {
                if l.text_offset <= usize::MAX - l.text_length {
                    let full = l.text_offset + l.text_length;
                    let end = if full <= count { full } else { count };
                    if l.text_offset < end {
                        let ghost before = range_views(ranges@);
                        if find_cover(&ranges, l.text_offset, end) {
                            let mut kept = remove_covers(ranges, l.text_offset, end);
                            let ghost dropped = range_views(kept@);
                            kept.push(InlineRange { start: l.text_offset, end, kind: InlineKind::Footnote, text: crate::text::owned(h.as_str()), target_symbol_id: l.target_symbol_id });
                            assert(range_views(kept@) =~= dropped.push(range(l.text_offset, end, InlineKind::Footnote, h@, l.target_symbol_id)));
                            ranges = kept;
                        } else {
                            ranges.push(InlineRange { start: l.text_offset, end, kind: InlineKind::Link, text: crate::text::owned(h.as_str()), target_symbol_id: 0 });
                            assert(range_views(ranges@) =~= before.push(range(l.text_offset, end, InlineKind::Link, h@, 0)));
                        }
                    }
                }
            },
            None => {},
        }
        k = k + 1;
    }
    assert(links@.take(k as int) =~= links@);
    if links.len() == 0 {
        match block_href {
            Some(h) => {
                let ghost before = range_views(ranges@);
                ranges.push(InlineRange { start: 0, end: count, kind: InlineKind::Link, text: h, target_symbol_id: 0 });
                assert(range_views(ranges@) =~= before.push(range(0, count, InlineKind::Link, h@, 0)));
            },
            None => {},
        }
    }
    ranges
}

fn rank(k: InlineKind) -> (r: u8)
    ensures
        r == kind_rank(k),
{
    match k {
        InlineKind::Link => 0,
        InlineKind::Ruby => 1,
        InlineKind::Footnote => 2,
        InlineKind::Sup => 3,
    }
}

fn is_before(a: &InlineRange, b: &InlineRange) -> (r: bool)
    ensures
        r == before(a@, b@),
{
    a.start < b.start || (a.start == b.start && (a.end < b.end || (a.end == b.end && rank(a.kind) < rank(b.kind))))
}

fn insert_range(v: &mut Vec<InlineRange>, x: InlineRange)
    ensures
        range_views(final(v)@) == insert_range_spec(range_views(old(v)@), x@),
    decreases old(v)@.len(),
{
    let ghost s = range_views(v@);
    if v.len() == 0 {
        v.push(x);
        assert(range_views(v@) =~= seq![x@]);
        return;
    }
    let last = v.pop().unwrap();
    proof {
        assert(range_views(v@) =~= s.drop_last());
        assert(last@ == s.last());
    }
    if is_before(&x, &last) {
        let ghost mid = range_views(v@);
        insert_range(v, x);
        let ghost ins = range_views(v@);
        v.push(last);
        assert(range_views(v@) =~= ins.push(s.last()));
    } else {
        let ghost mid = range_views(v@);
        v.push(last);
        v.push(x);
        assert(range_views(v@) =~= s.push(x@));
    }
}

/// Orders the ranges by start, end and kind, keeping the given order of
/// equal keys.
pub fn order_inline_ranges(ranges: Vec<InlineRange>) -> (r: Vec<InlineRange>)
    ensures
        range_views(r@) == ordered_ranges(range_views(ranges@)),
{
    let ghost v = range_views(ranges@);
    let mut rest = ranges;
    let mut out: Vec<InlineRange> = Vec::new();
    let ghost mut k: int = 0;
    proof {
        assert(range_views(rest@) =~= v.skip(0));
        assert(v.take(0) =~= Seq::<RangeView>::empty());
        assert(range_views(out@) =~= Seq::<RangeView>::empty());
    }
    while rest.len() > 0
        invariant
            0 <= k <= v.len(),
            range_views(rest@) == v.skip(k),
            range_views(out@) == ordered_ranges(v.take(k)),
        decreases rest@.len(),
    {
        assert(v.skip(k).len() > 0);
        let ghost old_rest = rest@;
        proof {
            assert(range_views(old_rest)[0] == old_rest[0]@);
            assert(v.skip(k)[0] == v[k]);
        }
        let r = rest.remove(0);
        proof {
            assert(r@ == v[k]);
            assert(range_views(rest@) =~= range_views(old_rest).drop_first());
            assert(range_views(rest@) =~= v.skip(k + 1));
            assert(v.take(k + 1).drop_last() =~= v.take(k));
            assert(v.take(k + 1).last() == v[k]);
        }
        insert_range(&mut out, r);
        proof {
            k = k + 1;
        }
    }
    assert(v.take(k) =~= v);
    out
}

fn chars_between(chars: &Vec<char>, a: usize, b: usize) -> (r: String)
    requires
        a <= b <= chars@.len(),
    ensures
        r@ == chars@.subrange(a as int, b as int),
{
    let mut part: Vec<char> = Vec::new();
    let mut i: usize = a;
    while i < b
        invariant
            a <= i <= b <= chars@.len(),
            part@ == chars@.subrange(a as int, i as int),
        decreases b - i,
    {
        part.push(chars[i]);
        assert(part@ =~= chars@.subrange(a as int, i + 1));
        i = i + 1;
    }
    string_from_chars(part.as_slice())
}

/// The runs of a node's text: plain text, superscript markers, links,
/// footnote references and ruby, in text order. Each link range comes with
/// its resolved href (`None` where the target did not resolve); a node with
/// no link ranges links all its text to `block_href` when that is given.
pub fn kfx_inline_runs(
    text: &str,
    events: &Vec<KfxTextStyleEvent>,
    annotations: &Vec<KfxRubyAnnotation>,
    links: &Vec<KfxTextLinkRange>,
    hrefs: &Vec<Option<String>>,
    block_href: Option<String>,
) -> (r: Vec<KfxInlineRun>)
    requires
        hrefs@.len() == links@.len(),
    ensures
        run_views(r@) == inline_runs_spec(
            text@,
            events@,
            annotations@,
            links@,
            hrefs@.map_values(|h: Option<String>| crate::decode::opt_string_view(h)),
            crate::decode::opt_string_view(block_href),
        ),
{
    let chars = chars_of(text);
    let count = chars.len();
    let planned = plan_inline_ranges(count, events, annotations, links, hrefs, block_href);
    let ranges = order_inline_ranges(planned);
    proof {
        lemma_planned_bounds(count as nat, events@, annotations@, links@,
            hrefs@.map_values(|h: Option<String>| crate::decode::opt_string_view(h)), crate::decode::opt_string_view(block_href));
    }
    let ghost all = range_views(ranges@);
    let mut out: Vec<KfxInlineRun> = Vec::new();
    let mut cursor: usize = 0;
    let mut i: usize = 0;
    proof {
        assert(run_views(out@) =~= Seq::<RunView>::empty());
        assert(all.skip(0) =~= all);
    }
    while i < ranges.len()
        invariant
            0 <= i <= ranges@.len(),
            cursor <= count,
            count == chars@.len(),
            chars@ == text@,
            all == range_views(ranges@),
            bounded(all, count as nat),
            runs_from(run_views(out@), all.skip(i as int), chars@, cursor as int)
                == runs_from(Seq::empty(), all, chars@, 0),
        decreases ranges@.len() - i,
    {
        let r = &ranges[i];
        proof {
            assert(all[i as int] == r@);
            assert(all.skip(i as int).drop_first() =~= all.skip(i + 1));
            assert(all.skip(i as int)[0] == all[i as int]);
        }
        if r.start >= cursor {
            let ghost before = run_views(out@);
            if r.start > cursor {
                out.push(KfxInlineRun::Text(chars_between(&chars, cursor, r.start)));
            }
            assert(run_views(out@) =~= text_run(before, chars@.subrange(cursor as int, r.start as int)));
            let ghost mid = run_views(out@);
            let t = chars_between(&chars, r.start, r.end);
            let run = match r.kind {
                InlineKind::Sup => KfxInlineRun::Sup(t),
                InlineKind::Link => KfxInlineRun::Link { text: t, href: crate::text::owned(r.text.as_str()) },
                InlineKind::Footnote => KfxInlineRun::Footnote { text: t, href: crate::text::owned(r.text.as_str()), link_target_symbol_id: r.target_symbol_id },
                InlineKind::Ruby => KfxInlineRun::Ruby { base: t, reading: crate::text::owned(r.text.as_str()) },
            };
            out.push(run);
            assert(run_views(out@) =~= mid.push(piece(r@, chars@)));
            cursor = r.end;
        }
        i = i + 1;
    }
    let ghost before = run_views(out@);
    if cursor < count {
        out.push(KfxInlineRun::Text(chars_between(&chars, cursor, count)));
    }
    assert(run_views(out@) =~= text_run(before, chars@.subrange(cursor as int, chars@.len() as int)));
    assert(all.skip(i as int) =~= Seq::<RangeView>::empty());
    out
}

/// Every range lies within the text.
pub open spec fn bounded(s: Seq<RangeView>, count: nat) -> bool {
    forall|i: int| 0 <= i < s.len() ==> #[trigger] s[i].start <= s[i].end && s[i].end <= count
}

proof fn lemma_concat_bounded(a: Seq<RangeView>, b: Seq<RangeView>, count: nat)
    requires
        bounded(a, count),
        bounded(b, count),
    ensures
        bounded(a + b, count),
{
    assert forall|i: int| 0 <= i < (a + b).len() implies #[trigger] (a + b)[i].start <= (a + b)[i].end && (a + b)[i].end <= count by {
        if i < a.len() {
            assert((a + b)[i] == a[i]);
        } else {
            assert((a + b)[i] == b[i - a.len()]);
        }
    }
}

proof fn lemma_sup_bounded(events: Seq<KfxTextStyleEvent>, count: nat)
    ensures
        bounded(sup_ranges(events, count), count),
    decreases events.len(),
{
    if events.len() > 0 {
        lemma_sup_bounded(events.drop_last(), count);
        lemma_concat_bounded(sup_ranges(events.drop_last(), count), sup_of(events.last(), count), count);
    }
}

proof fn lemma_ruby_bounded(a: Seq<KfxRubyAnnotation>, count: nat)
    ensures
        bounded(ruby_ranges(a, count), count),
    decreases a.len(),
{
    if a.len() > 0 {
        lemma_ruby_bounded(a.drop_last(), count);
        lemma_concat_bounded(ruby_ranges(a.drop_last(), count), ruby_of(a.last(), count), count);
    }
}

proof fn lemma_drop_covers_bounded(s: Seq<RangeView>, start: usize, end: usize, count: nat)
    requires
        bounded(s, count),
    ensures
        bounded(drop_covers(s, start, end), count),
    decreases s.len(),
{
    if s.len() > 0 {
        assert(bounded(s.drop_last(), count));
        lemma_drop_covers_bounded(s.drop_last(), start, end, count);
        let p = drop_covers(s.drop_last(), start, end);
        assert(s[s.len() - 1].start <= s[s.len() - 1].end);
        lemma_concat_bounded(p, seq![s.last()], count);
        assert(p.push(s.last()) =~= p + seq![s.last()]);
    }
}

proof fn lemma_links_bounded(s: Seq<RangeView>, links: Seq<KfxTextLinkRange>, hrefs: Seq<Option<Seq<char>>>, count: nat)
    requires
        bounded(s, count),
        count <= usize::MAX,
    ensures
        bounded(add_links(s, links, hrefs, count), count),
    decreases links.len(),
{
    if links.len() > 0 {
        lemma_links_bounded(s, links.drop_last(), hrefs, count);
        let p = add_links(s, links.drop_last(), hrefs, count);
        let l = links.last();
        if l.text_offset + l.text_length <= usize::MAX {
            let end = if l.text_offset + l.text_length <= count { (l.text_offset + l.text_length) as usize } else { count as usize };
            lemma_drop_covers_bounded(p, l.text_offset, end, count);
            if l.text_offset < end {
                let q = drop_covers(p, l.text_offset, end);
                let f = range(l.text_offset, end, InlineKind::Footnote, hrefs[links.len() - 1]->Some_0, l.target_symbol_id);
                let k = range(l.text_offset, end, InlineKind::Link, hrefs[links.len() - 1]->Some_0, 0);
                lemma_concat_bounded(q, seq![f], count);
                lemma_concat_bounded(p, seq![k], count);
                assert(q.push(f) =~= q + seq![f]);
                assert(p.push(k) =~= p + seq![k]);
            }
        }
    }
}

proof fn lemma_insert_bounded(s: Seq<RangeView>, x: RangeView, count: nat)
    requires
        bounded(s, count),
        x.start <= x.end <= count,
    ensures
        bounded(insert_range_spec(s, x), count),
    decreases s.len(),
{
    if s.len() > 0 {
        assert(bounded(s.drop_last(), count));
        lemma_insert_bounded(s.drop_last(), x, count);
    }
}

proof fn lemma_ordered_bounded(s: Seq<RangeView>, count: nat)
    requires
        bounded(s, count),
    ensures
        bounded(ordered_ranges(s), count),
    decreases s.len(),
{
    if s.len() > 0 {
        assert(bounded(s.drop_last(), count));
        lemma_ordered_bounded(s.drop_last(), count);
        assert(s.last() == s[s.len() - 1]);
        lemma_insert_bounded(ordered_ranges(s.drop_last()), s.last(), count);
    }
}

proof fn lemma_planned_bounds(
    count: nat,
    events: Seq<KfxTextStyleEvent>,
    annotations: Seq<KfxRubyAnnotation>,
    links: Seq<KfxTextLinkRange>,
    hrefs: Seq<Option<Seq<char>>>,
    block_href: Option<Seq<char>>,
)
    requires
        count <= usize::MAX,
    ensures
        bounded(ordered_ranges(planned_ranges(count, events, annotations, links, hrefs, block_href)), count),
{
    lemma_sup_bounded(events, count);
    lemma_ruby_bounded(annotations, count);
    let base = sup_ranges(events, count) + ruby_ranges(annotations, count);
    lemma_concat_bounded(sup_ranges(events, count), ruby_ranges(annotations, count), count);
    lemma_links_bounded(base, links, hrefs, count);
    let linked = add_links(base, links, hrefs, count);
    let whole = range(0, count as usize, InlineKind::Link, block_href->Some_0, 0);
    lemma_concat_bounded(linked, seq![whole], count);
    assert(linked.push(whole) =~= linked + seq![whole]);
    lemma_ordered_bounded(planned_ranges(count, events, annotations, links, hrefs, block_href), count);
}

/// The characters of the text a run shows in the reading order (the base
/// of ruby, not its reading).
pub open spec fn run_text(r: RunView) -> Seq<char> {
    match r {
        RunView::Text(t) => t,
        RunView::Sup(t) => t,
        RunView::Link(t, _) => t,
        RunView::Footnote(t, _, _) => t,
        RunView::Ruby(b, _) => b,
    }
}

pub open spec fn runs_text(s: Seq<RunView>) -> Seq<char>
    decreases s.len(),
{
    if s.len() == 0 {
        Seq::empty()
    } else {
        runs_text(s.drop_last()) + run_text(s.last())
    }
}

proof fn lemma_runs_from_text(out: Seq<RunView>, ranges: Seq<RangeView>, chars: Seq<char>, cursor: int)
    requires
        bounded(ranges, chars.len()),
        0 <= cursor <= chars.len(),
    ensures
        runs_text(runs_from(out, ranges, chars, cursor)) == runs_text(out) + chars.subrange(cursor, chars.len() as int),
    decreases ranges.len(),
{
    let rest = chars.subrange(cursor, chars.len() as int);
    if ranges.len() == 0 {
        if rest.len() == 0 {
            assert(runs_text(out) + rest =~= runs_text(out));
        } else {
            assert(out.push(RunView::Text(rest)).drop_last() =~= out);
        }
    } else {
        let r = ranges[0];
        assert(r == ranges[0]);
        assert(bounded(ranges.drop_first(), chars.len())) by {
            assert forall|i: int| 0 <= i < ranges.drop_first().len() implies #[trigger] ranges.drop_first()[i].start <= ranges.drop_first()[i].end
                && ranges.drop_first()[i].end <= chars.len() by {
                assert(ranges.drop_first()[i] == ranges[i + 1]);
            }
        }
        if r.start < cursor {
            lemma_runs_from_text(out, ranges.drop_first(), chars, cursor);
        } else {
            let gap = chars.subrange(cursor, r.start as int);
            let t1 = text_run(out, gap);
            assert(runs_text(t1) == runs_text(out) + gap) by {
                if gap.len() == 0 {
                    assert(runs_text(out) + gap =~= runs_text(out));
                } else {
                    assert(out.push(RunView::Text(gap)).drop_last() =~= out);
                }
            }
            let t2 = t1.push(piece(r, chars));
            assert(t2.drop_last() =~= t1);
            assert(run_text(piece(r, chars)) == chars.subrange(r.start as int, r.end as int));
            lemma_runs_from_text(t2, ranges.drop_first(), chars, r.end as int);
            assert(runs_text(out) + gap + chars.subrange(r.start as int, r.end as int) + chars.subrange(r.end as int, chars.len() as int)
                =~= runs_text(out) + rest);
        }
    }
}

/// Splitting a node's text into runs keeps its reading text: the runs,
/// read in order, show exactly the node's characters, each once.
pub proof fn lemma_inline_runs_keep_text(
    chars: Seq<char>,
    events: Seq<KfxTextStyleEvent>,
    annotations: Seq<KfxRubyAnnotation>,
    links: Seq<KfxTextLinkRange>,
    hrefs: Seq<Option<Seq<char>>>,
    block_href: Option<Seq<char>>,
)
    requires
        chars.len() <= usize::MAX,
    ensures
        runs_text(inline_runs_spec(chars, events, annotations, links, hrefs, block_href)) == chars,
{
    lemma_planned_bounds(chars.len(), events, annotations, links, hrefs, block_href);
    lemma_runs_from_text(
        Seq::empty(),
        ordered_ranges(planned_ranges(chars.len(), events, annotations, links, hrefs, block_href)),
        chars,
        0,
    );
    assert(runs_text(Seq::<RunView>::empty()) + chars.subrange(0, chars.len() as int) =~= chars);
}

/// The href of a link target: a position as `kfx-position:N`, a URI as is;
/// `None` when the container has no such target.
pub open spec fn href_spec(targets: Map<(usize, u64), LinkTargetView>, container_index: usize, target: u64) -> Option<Seq<char>> {
    if targets.contains_key((container_index, target)) {
        match targets[(container_index, target)] {
            LinkTargetView::Position(p) => Some("kfx-position:"@ + decimal(p as nat)),
            LinkTargetView::Uri(u) => Some(u),
        }
    } else {
        None
    }
}

/// Resolves a link target of a container to its href, counting one more
/// unresolved target (saturating) when there is none.
pub fn kfx_link_target_href(
    container_index: usize,
    target_symbol_id: u64,
    link_targets: &BTreeMap<(usize, u64), KfxLinkTarget>,
    unresolved_link_targets: &mut usize,
) -> (r: Option<String>)
    ensures
        crate::decode::opt_string_view(r) == href_spec(link_views(link_targets@), container_index, target_symbol_id),
        *final(unresolved_link_targets) == (if r is None {
            if *old(unresolved_link_targets) < usize::MAX { (*old(unresolved_link_targets) + 1) as usize } else { usize::MAX }
        } else {
            *old(unresolved_link_targets)
        }),
{
    let ghost lv = link_views(link_targets@);
    match link_targets.get(&(container_index, target_symbol_id)) {
        None => {
            *unresolved_link_targets = unresolved_link_targets.saturating_add(1);
            None
        },
        Some(target) => {
            assert(lv[(container_index, target_symbol_id)] == target@);
            match target {
                KfxLinkTarget::Position(p) => {
                    let n = decimal_string(*p as u64);
                    let h = join2("kfx-position:", n.as_str());
                    proof {
                        reveal_strlit("kfx-position:");
                    }
                    Some(h)
                },
                KfxLinkTarget::Uri(u) => Some(crate::text::owned(u.as_str())),
            }
        },
    }
}

/// The number of targets among `links` (and the node's own target, when it
/// has no link ranges) that do not resolve.
pub open spec fn unresolved_count(
    targets: Map<(usize, u64), LinkTargetView>,
    container_index: usize,
    links: Seq<KfxTextLinkRange>,
    block_target: Option<u64>,
) -> nat
    decreases links.len(),
{
    if links.len() == 0 {
        match block_target {
            Some(t) => if href_spec(targets, container_index, t) is None { 1 } else { 0 },
            None => 0,
        }
    } else {
        unresolved_count(targets, container_index, links.drop_last(), None)
            + if href_spec(targets, container_index, links.last().target_symbol_id) is None { 1nat } else { 0nat }
    }
}

pub open spec fn link_hrefs(targets: Map<(usize, u64), LinkTargetView>, container_index: usize, links: Seq<KfxTextLinkRange>) -> Seq<Option<Seq<char>>> {
    links.map_values(|l: KfxTextLinkRange| href_spec(targets, container_index, l.target_symbol_id))
}

/// The runs of one content node's text, its link targets resolved in its
/// container: links, footnote references, ruby and superscript markers over
/// the plain text. Each target that does not resolve adds one to
/// `unresolved_link_targets` (saturating).
pub fn kfx_text_runs(
    text: &str,
    style_events: &Vec<KfxTextStyleEvent>,
    link_ranges: &Vec<KfxTextLinkRange>,
    link_target_symbol_id: Option<u64>,
    container_index: usize,
    link_targets: &BTreeMap<(usize, u64), KfxLinkTarget>,
    ruby_annotations: &Vec<KfxRubyAnnotation>,
    unresolved_link_targets: &mut usize,
) -> (r: Vec<KfxInlineRun>)
    ensures
        run_views(r@) == inline_runs_spec(
            text@,
            style_events@,
            ruby_annotations@,
            link_ranges@,
            link_hrefs(link_views(link_targets@), container_index, link_ranges@),
            if link_ranges@.len() == 0 {
                match link_target_symbol_id {
                    Some(t) => href_spec(link_views(link_targets@), container_index, t),
                    None => None,
                }
            } else {
                None
            },
        ),
        *final(unresolved_link_targets) == ({
            let total = *old(unresolved_link_targets) + unresolved_count(
                link_views(link_targets@),
                container_index,
                link_ranges@,
                if link_ranges@.len() == 0 { link_target_symbol_id } else { None },
            );
            if total <= usize::MAX { total as usize } else { usize::MAX }
        }),
{
    let ghost tv = link_views(link_targets@);
    let ghost u0 = *unresolved_link_targets;
    let mut hrefs: Vec<Option<String>> = Vec::new();
    let mut i: usize = 0;
    while i < link_ranges.len()
        invariant
            0 <= i <= link_ranges@.len(),
            tv == link_views(link_targets@),
            hrefs@.len() == i,
            hrefs@.map_values(|h: Option<String>| crate::decode::opt_string_view(h))
                == link_hrefs(tv, container_index, link_ranges@.take(i as int)),
            *unresolved_link_targets == ({
                let total = u0 + unresolved_count(tv, container_index, link_ranges@.take(i as int), None);
                if total <= usize::MAX { total as usize } else { usize::MAX }
            }),
        decreases link_ranges@.len() - i,
    {
        let ghost before = hrefs@;
        proof {
            assert(link_ranges@.take(i + 1).drop_last() =~= link_ranges@.take(i as int));
            assert(link_ranges@.take(i + 1).last() == link_ranges@[i as int]);
        }
        let h = kfx_link_target_href(container_index, link_ranges[i].target_symbol_id, link_targets, unresolved_link_targets);
        hrefs.push(h);
        proof {
            let now = hrefs@.map_values(|h: Option<String>| crate::decode::opt_string_view(h));
            let was = before.map_values(|h: Option<String>| crate::decode::opt_string_view(h));
            let want = link_hrefs(tv, container_index, link_ranges@.take(i + 1));
            assert forall|k: int| 0 <= k < i + 1 implies now[k] == want[k] by {
                if k < i {
                    assert(hrefs@[k] == before[k]);
                    assert(now[k] == was[k]);
                    assert(link_ranges@.take(i + 1)[k] == link_ranges@.take(i as int)[k]);
                }
            }
            assert(now =~= want);
        }
        i = i + 1;
    }
    assert(link_ranges@.take(i as int) =~= link_ranges@);
    let block_href = if link_ranges.len() == 0 {
        match link_target_symbol_id {
            Some(t) => kfx_link_target_href(container_index, t, link_targets, unresolved_link_targets),
            None => None,
        }
    } else {
        None
    };
    kfx_inline_runs(text, style_events, ruby_annotations, link_ranges, &hrefs, block_href)
}

/// The inline nodes of a node's text, with their ids. Superscript and
/// footnote markers take the marker style (smaller, raised); the rest the
/// node's own style.
#[derive(Debug, PartialEq, Eq)]
pub enum KfxTextNode {
    Text { id: u32, value: String },
    Sup { id: u32, text_id: u32, value: String },
    Link { id: u32, text_id: u32, value: String, href: String },
    Footnote { id: u32, text_id: u32, value: String, href: String, link_target_symbol_id: u64 },
    Ruby { id: u32, base_id: u32, reading_id: u32, reading_text_id: u32, base: String, reading: String },
}

pub enum TextNodeView {
    Text(u32, Seq<char>),
    Sup(u32, u32, Seq<char>),
    Link(u32, u32, Seq<char>, Seq<char>),
    Footnote(u32, u32, Seq<char>, Seq<char>, u64),
    Ruby(u32, u32, u32, u32, Seq<char>, Seq<char>),
}

impl View for KfxTextNode {
    type V = TextNodeView;

    open spec fn view(&self) -> TextNodeView {
        match self {
            KfxTextNode::Text { id, value } => TextNodeView::Text(*id, value@),
            KfxTextNode::Sup { id, text_id, value } => TextNodeView::Sup(*id, *text_id, value@),
            KfxTextNode::Link { id, text_id, value, href } => TextNodeView::Link(*id, *text_id, value@, href@),
            KfxTextNode::Footnote { id, text_id, value, href, link_target_symbol_id } =>
                TextNodeView::Footnote(*id, *text_id, value@, href@, *link_target_symbol_id),
            KfxTextNode::Ruby { id, base_id, reading_id, reading_text_id, base, reading } =>
                TextNodeView::Ruby(*id, *base_id, *reading_id, *reading_text_id, base@, reading@),
        }
    }
}

pub open spec fn node_views(s: Seq<KfxTextNode>) -> Seq<TextNodeView> {
    s.map_values(|n: KfxTextNode| n@)
}

/// How many node ids a run takes.
pub open spec fn ids_of(r: RunView) -> nat {
    match r {
        RunView::Text(_) => 1,
        RunView::Ruby(_, _) => 4,
        _ => 2,
    }
}

pub open spec fn total_ids(runs: Seq<RunView>) -> nat
    decreases runs.len(),
{
    if runs.len() == 0 { 0 } else { total_ids(runs.drop_last()) + ids_of(runs.last()) }
}

/// The node of a run whose ids start at `n`: a link's text takes the first
/// id and the link the second; the others number from the outside in.
pub open spec fn node_of(r: RunView, n: nat) -> TextNodeView {
    match r {
        RunView::Text(t) => TextNodeView::Text(n as u32, t),
        RunView::Sup(t) => TextNodeView::Sup(n as u32, (n + 1) as u32, t),
        RunView::Link(t, h) => TextNodeView::Link((n + 1) as u32, n as u32, t, h),
        RunView::Footnote(t, h, k) => TextNodeView::Footnote(n as u32, (n + 1) as u32, t, h, k),
        RunView::Ruby(b, rd) => TextNodeView::Ruby(n as u32, (n + 1) as u32, (n + 2) as u32, (n + 3) as u32, b, rd),
    }
}

pub open spec fn nodes_spec(runs: Seq<RunView>, start: nat) -> Seq<TextNodeView>
    decreases runs.len(),
{
    if runs.len() == 0 {
        Seq::empty()
    } else {
        nodes_spec(runs.drop_last(), start).push(node_of(runs.last(), start + total_ids(runs.drop_last())))
    }
}

pub open spec fn id_overflow_message() -> Seq<char> {
    "KFX produced more nodes than the IR can identify"@
}

fn id_overflow() -> (e: AmazonKfxError)
    ensures
        e@ == KfxErrorView::Semantic(id_overflow_message()),
{
    AmazonKfxError::Semantic(crate::text::owned("KFX produced more nodes than the IR can identify"))
}

/// `r` numbers the nodes of `runs` from `start`, leaving the counter at
/// `next`: when the ids fit, the nodes with the counter past them;
/// otherwise the overflow error with the counter at its limit.
pub open spec fn numbered(r: Result<Vec<KfxTextNode>, AmazonKfxError>, runs: Seq<RunView>, start: nat, next: u32) -> bool {
    &&& start + total_ids(runs) <= u32::MAX ==> (r matches Ok(nodes)
        && node_views(nodes@) == nodes_spec(runs, start)
        && next == start + total_ids(runs))
    &&& start + total_ids(runs) > u32::MAX ==> (r matches Err(e)
        && e@ == KfxErrorView::Semantic(id_overflow_message())
        && next == u32::MAX)
}

/// Numbers the nodes of the runs from `*next_node_id` on. When the ids run
/// out the whole call fails, with the counter left at its limit.
pub fn kfx_text_nodes(runs: Vec<KfxInlineRun>, next_node_id: &mut u32) -> (r: Result<Vec<KfxTextNode>, AmazonKfxError>)
    ensures
        numbered(r, run_views(runs@), *old(next_node_id) as nat, *final(next_node_id)),
{
    let ghost v = run_views(runs@);
    let ghost start = *next_node_id as nat;
    let mut rest = runs;
    let mut out: Vec<KfxTextNode> = Vec::new();
    let mut overflow = false;
    let ghost mut k: int = 0;
    proof {
        assert(run_views(rest@) =~= v.skip(0));
        assert(v.take(0) =~= Seq::<RunView>::empty());
        assert(node_views(out@) =~= Seq::<TextNodeView>::empty());
    }
    while rest.len() > 0 && !overflow
        invariant
            0 <= k <= v.len(),
            run_views(rest@) == v.skip(k),
            overflow ==> start + total_ids(v) > u32::MAX && *next_node_id == u32::MAX,
            !overflow ==> start + total_ids(v.take(k)) <= u32::MAX,
            !overflow ==> *next_node_id == start + total_ids(v.take(k)),
            !overflow ==> node_views(out@) == nodes_spec(v.take(k), start),
        decreases rest@.len(), (if overflow { 0int } else { 1int }),
    {
        let ghost old_rest = rest@;
        proof {
            assert(v.skip(k).len() > 0);
            assert(run_views(old_rest)[0] == old_rest[0]@);
            assert(v.skip(k)[0] == v[k]);
            assert(v.take(k + 1).drop_last() =~= v.take(k));
            assert(v.take(k + 1).last() == v[k]);
        }
        let run = rest.remove(0);
        proof {
            assert(run@ == v[k]);
            assert(run_views(rest@) =~= run_views(old_rest).drop_first());
            assert(run_views(rest@) =~= v.skip(k + 1));
            lemma_total_ids_prefix(v, k + 1);
        }
        let n = *next_node_id;
        let need: u32 = match &run {
            KfxInlineRun::Text(_) => 1,
            KfxInlineRun::Ruby { .. } => 4,
            _ => 2,
        };
        assert(need == ids_of(v[k]));
        if n > u32::MAX - need {
            proof {
                lemma_total_ids_monotone(v, k + 1);
            }
            *next_node_id = u32::MAX;
            overflow = true;
        } else {
            let node = match run {
                KfxInlineRun::Text(value) => KfxTextNode::Text { id: n, value },
                KfxInlineRun::Sup(value) => KfxTextNode::Sup { id: n, text_id: n + 1, value },
                KfxInlineRun::Link { text, href } => KfxTextNode::Link { id: n + 1, text_id: n, value: text, href },
                KfxInlineRun::Footnote { text, href, link_target_symbol_id } =>
                    KfxTextNode::Footnote { id: n, text_id: n + 1, value: text, href, link_target_symbol_id },
                KfxInlineRun::Ruby { base, reading } => KfxTextNode::Ruby {
                    id: n,
                    base_id: n + 1,
                    reading_id: n + 2,
                    reading_text_id: n + 3,
                    base,
                    reading,
                },
            };
            let ghost before = out@;
            out.push(node);
            *next_node_id = n + need;
            proof {
                assert(node@ == node_of(v[k], start + total_ids(v.take(k))));
                assert(node_views(out@) =~= node_views(before).push(node@));
            }
        }
        proof {
            k = k + 1;
        }
    }
    if overflow {
        let e = id_overflow();
        assert(numbered(Err(e), v, start, *next_node_id));
        return Err(e);
    }
    assert(v.take(k) =~= v);
    assert(numbered(Ok(out), v, start, *next_node_id));
    Ok(out)
}

proof fn lemma_total_ids_prefix(v: Seq<RunView>, j: int)
    requires
        0 < j <= v.len(),
    ensures
        total_ids(v.take(j)) == total_ids(v.take(j - 1)) + ids_of(v[j - 1]),
{
    assert(v.take(j).drop_last() =~= v.take(j - 1));
}

proof fn lemma_total_ids_monotone(v: Seq<RunView>, j: int)
    requires
        0 <= j <= v.len(),
    ensures
        total_ids(v.take(j)) <= total_ids(v),
    decreases v.len() - j,
{
    if j < v.len() {
        lemma_total_ids_prefix(v, j + 1);
        lemma_total_ids_monotone(v, j + 1);
    } else {
        assert(v.take(j) =~= v);
    }
}

/// The inline nodes of one content node's text: its runs (see
/// [`kfx_text_runs`]) numbered from `*next_node_id` on.
pub fn kfx_text_children(
    next_node_id: &mut u32,
    text: &str,
    style_events: &Vec<KfxTextStyleEvent>,
    link_ranges: &Vec<KfxTextLinkRange>,
    link_target_symbol_id: Option<u64>,
    container_index: usize,
    link_targets: &BTreeMap<(usize, u64), KfxLinkTarget>,
    ruby_annotations: &Vec<KfxRubyAnnotation>,
    unresolved_link_targets: &mut usize,
) -> (r: Result<Vec<KfxTextNode>, AmazonKfxError>)
    ensures
        ({
            let runs = inline_runs_spec(
                text@,
                style_events@,
                ruby_annotations@,
                link_ranges@,
                link_hrefs(link_views(link_targets@), container_index, link_ranges@),
                if link_ranges@.len() == 0 {
                    match link_target_symbol_id {
                        Some(t) => href_spec(link_views(link_targets@), container_index, t),
                        None => None,
                    }
                } else {
                    None
                },
            );
            numbered(r, runs, *old(next_node_id) as nat, *final(next_node_id))
        }),
        *final(unresolved_link_targets) == ({
            let total = *old(unresolved_link_targets) + unresolved_count(
                link_views(link_targets@),
                container_index,
                link_ranges@,
                if link_ranges@.len() == 0 { link_target_symbol_id } else { None },
            );
            if total <= usize::MAX { total as usize } else { usize::MAX }
        }),
{
    let runs = kfx_text_runs(
        text,
        style_events,
        link_ranges,
        link_target_symbol_id,
        container_index,
        link_targets,
        ruby_annotations,
        unresolved_link_targets,
    );
    kfx_text_nodes(runs, next_node_id)
}

} // verus!
