//! Text-style events of KFX content and the link ranges they carry.
//!
//! A content node's `$142` list holds style events; an event spans
//! `$143`/`$144` scalars of the node's text and may name a link target
//! (`$179`) or a style (`$616`).
use vstd::prelude::*;
use crate::ion::{IonModel, IonValue, models, lemma_models_index};
use crate::value::{field_of, int_field, items_of, symbol_field, int_field_of, symbol_field_of, struct_get, list_items};

verus! {

pub const FIELD_TEXT_STYLE_EVENTS: u64 = 142;
pub const FIELD_TEXT_STYLE_OFFSET: u64 = 143;
pub const FIELD_TEXT_STYLE_LENGTH: u64 = 144;
pub const FIELD_TEXT_STYLE_LINK_TARGET: u64 = 179;
pub const FIELD_TEXT_STYLE_KIND: u64 = 616;

/// One style event, summarised without its text.
#[derive(Clone, Copy, Debug, PartialEq, Eq, Structural)]
pub struct KfxTextStyleEvent {
    pub list_index: usize,
    pub text_offset: Option<i64>,
    pub text_length: Option<i64>,
    pub style_symbol_id: Option<u64>,
}

/// A linked span of a content node's text, in scalar offsets.
#[derive(Clone, Copy, Debug, PartialEq, Eq, Structural)]
pub struct KfxTextLinkRange {
    pub text_offset: usize,
    pub text_length: usize,
    pub target_symbol_id: u64,
}

/// The summary of the style event at `index`.
pub open spec fn style_event_spec(item: IonModel, index: int) -> KfxTextStyleEvent {
    KfxTextStyleEvent {
        list_index: index as usize,
        text_offset: int_field(item, FIELD_TEXT_STYLE_OFFSET),
        text_length: int_field(item, FIELD_TEXT_STYLE_LENGTH),
        style_symbol_id: symbol_field(item, FIELD_TEXT_STYLE_KIND),
    }
}

/// Summaries of every style event in `items`, in list order.
pub open spec fn style_events_spec(items: Seq<IonModel>) -> Seq<KfxTextStyleEvent> {
    Seq::new(items.len(), |i: int| style_event_spec(items[i], i))
}

/// Summarises a list of style events.
pub fn summarize_text_style_events(items: &Vec<IonValue>) -> (r: Vec<KfxTextStyleEvent>)
    ensures
        r@ == style_events_spec(models(items@)),
{
    proof {
        lemma_models_index(items@);
    }
    let mut out: Vec<KfxTextStyleEvent> = Vec::new();
    let mut i: usize = 0;
    while i < items.len()
        invariant
            0 <= i <= items@.len(),
            models(items@).len() == items@.len(),
            forall|k: int| 0 <= k < items@.len() ==> #[trigger] models(items@)[k] == items@[k]@,
            out@.len() == i,
            forall|k: int| 0 <= k < i ==> #[trigger] out@[k] == style_event_spec(models(items@)[k], k),
        decreases items@.len() - i,
    {
        let item = &items[i];
        out.push(
            KfxTextStyleEvent {
                list_index: i,
                text_offset: int_field_of(item, FIELD_TEXT_STYLE_OFFSET),
                text_length: int_field_of(item, FIELD_TEXT_STYLE_LENGTH),
                style_symbol_id: symbol_field_of(item, FIELD_TEXT_STYLE_KIND),
            },
        );
        i = i + 1;
    }
    assert(out@ =~= style_events_spec(models(items@)));
    out
}

/// The style events listed under `$142` of a node (a list or s-expression).
pub open spec fn style_event_items(parent: IonModel) -> Seq<IonModel> {
    match field_of(parent, FIELD_TEXT_STYLE_EVENTS) {
        Some(v) => match items_of(v) {
            Some(items) => items,
            None => Seq::empty(),
        },
        None => Seq::empty(),
    }
}

/// Summaries of the style events of a node; none when it has no event list.
pub fn adjacent_text_style_events(parent: &IonValue) -> (r: Vec<KfxTextStyleEvent>)
    ensures
        r@ == style_events_spec(style_event_items(parent@)),
{
    match struct_get(parent, FIELD_TEXT_STYLE_EVENTS) {
        Some(v) => match list_items(v) {
            Some(items) => summarize_text_style_events(items),
            None => {
                let r: Vec<KfxTextStyleEvent> = Vec::new();
                assert(r@ =~= style_events_spec(Seq::<IonModel>::empty()));
                r
            },
        },
        None => {
            let r: Vec<KfxTextStyleEvent> = Vec::new();
            assert(r@ =~= style_events_spec(Seq::<IonModel>::empty()));
            r
        },
    }
}

/// An integer that fits `usize`.
pub open spec fn as_usize(v: Option<i64>) -> Option<usize> {
    match v {
        Some(i) => if 0 <= i <= usize::MAX {
            Some(i as usize)
        } else {
            None
        },
        None => None,
    }
}

/// The non-empty scalar range `[start, end)` that a style event covers.
pub open spec fn style_range_spec(item: IonModel) -> Option<(usize, usize)> {
    match (as_usize(int_field(item, FIELD_TEXT_STYLE_OFFSET)), as_usize(int_field(item, FIELD_TEXT_STYLE_LENGTH))) {
        (Some(start), Some(length)) => if start + length <= usize::MAX && start < start + length {
            Some((start, (start + length) as usize))
        } else {
            None
        },
        _ => None,
    }
}

fn usize_of(v: Option<i64>) -> (r: Option<usize>)
    ensures
        r == as_usize(v),
{
    match v {
        Some(i) => if i >= 0 && (i as u64) <= (usize::MAX as u64) {
            Some(i as usize)
        } else {
            None
        },
        None => None,
    }
}

/// The scalar range of a style event.
pub fn text_style_range(item: &IonValue) -> (r: Option<(usize, usize)>)
    ensures
        r == style_range_spec(item@),
{
    let start = match usize_of(int_field_of(item, FIELD_TEXT_STYLE_OFFSET)) {
        Some(s) => s,
        None => {
            return None;
        },
    };
    let length = match usize_of(int_field_of(item, FIELD_TEXT_STYLE_LENGTH)) {
        Some(l) => l,
        None => {
            return None;
        },
    };
    let end = match start.checked_add(length) {
        Some(e) => e,
        None => {
            return None;
        },
    };
    if start < end {
        Some((start, end))
    } else {
        None
    }
}

/// The range of a ruby style event, which must end inside the text.
pub open spec fn ruby_range_spec(item: IonModel, text_char_count: usize) -> Option<(usize, usize)> {
    match style_range_spec(item) {
        Some((start, end)) => if end <= text_char_count {
            Some((start, end))
        } else {
            None
        },
        None => None,
    }
}

pub fn ruby_range(item: &IonValue, text_char_count: usize) -> (r: Option<(usize, usize)>)
    ensures
        r == ruby_range_spec(item@, text_char_count),
{
    match text_style_range(item) {
        Some((start, end)) => if end <= text_char_count {
            Some((start, end))
        } else {
            None
        },
        None => None,
    }
}

/// The link range of one style event, when it names a target and covers a
/// non-empty range.
pub open spec fn link_range_spec(item: IonModel) -> Option<KfxTextLinkRange> {
    match symbol_field(item, FIELD_TEXT_STYLE_LINK_TARGET) {
        Some(target) => match style_range_spec(item) {
            Some((start, end)) => Some(
                KfxTextLinkRange {
                    text_offset: start,
                    text_length: (end - start) as usize,
                    target_symbol_id: target,
                },
            ),
            None => None,
        },
        None => None,
    }
}

/// The link ranges of a sequence of style events, in order.
pub open spec fn link_ranges_spec(items: Seq<IonModel>) -> Seq<KfxTextLinkRange>
    decreases items.len(),
{
    if items.len() == 0 {
        Seq::empty()
    } else {
        let prev = link_ranges_spec(items.drop_last());
        match link_range_spec(items.last()) {
            Some(r) => prev.push(r),
            None => prev,
        }
    }
}

/// The link ranges that a node's style events declare.
pub fn content_link_ranges(parent: &IonValue) -> (r: Vec<KfxTextLinkRange>)
    ensures
        r@ == link_ranges_spec(style_event_items(parent@)),
{
    let mut out: Vec<KfxTextLinkRange> = Vec::new();
    let items = match struct_get(parent, FIELD_TEXT_STYLE_EVENTS) {
        Some(v) => match list_items(v) {
            Some(items) => items,
            None => {
                return out;
            },
        },
        None => {
            return out;
        },
    };
    let ghost ms = models(items@);
    proof {
        lemma_models_index(items@);
    }
    let mut i: usize = 0;
    while i < items.len()
        invariant
            0 <= i <= items@.len(),
            ms == models(items@),
            ms.len() == items@.len(),
            forall|k: int| 0 <= k < items@.len() ==> #[trigger] ms[k] == items@[k]@,
            out@ == link_ranges_spec(ms.subrange(0, i as int)),
        decreases items@.len() - i,
    {
        let item = &items[i];
        proof {
            let next = ms.subrange(0, i + 1);
            assert(next.drop_last() =~= ms.subrange(0, i as int));
            assert(next.last() == item@);
        }
        match symbol_field_of(item, FIELD_TEXT_STYLE_LINK_TARGET) {
            Some(target) => match text_style_range(item) {
                Some((start, end)) => {
                    out.push(KfxTextLinkRange { text_offset: start, text_length: end - start, target_symbol_id: target });
                },
                None => {},
            },
            None => {},
        }
        i = i + 1;
    }
    assert(ms.subrange(0, ms.len() as int) =~= ms);
    out
}

/// The part of a range that falls inside the segment `[offset, offset + length)`,
/// in the segment's own offsets.
pub open spec fn localize_one(r: KfxTextLinkRange, offset: usize, length: usize) -> Option<KfxTextLinkRange> {
    if r.text_offset + r.text_length > usize::MAX {
        None
    } else {
        let start = if r.text_offset >= offset { r.text_offset as int } else { offset as int };
        let range_end = r.text_offset + r.text_length;
        let end = if range_end <= offset + length { range_end } else { offset + length };
        if start >= end {
            None
        } else {
            Some(
                KfxTextLinkRange {
                    text_offset: (start - offset) as usize,
                    text_length: (end - start) as usize,
                    target_symbol_id: r.target_symbol_id,
                },
            )
        }
    }
}

/// The ranges that intersect a segment, moved into the segment's offsets.
pub open spec fn localize_spec(ranges: Seq<KfxTextLinkRange>, offset: usize, length: usize) -> Seq<KfxTextLinkRange>
    decreases ranges.len(),
{
    if ranges.len() == 0 || offset + length > usize::MAX {
        Seq::empty()
    } else {
        let prev = localize_spec(ranges.drop_last(), offset, length);
        match localize_one(ranges.last(), offset, length) {
            Some(r) => prev.push(r),
            None => prev,
        }
    }
}

/// Translates the link ranges of a container into the offsets of one of its
/// nested text segments, keeping only the ranges that intersect it.
pub fn localize_kfx_link_ranges(
    ranges: &[KfxTextLinkRange],
    segment_offset: usize,
    segment_length: usize,
) -> (r: Vec<KfxTextLinkRange>)
    ensures
        r@ == localize_spec(ranges@, segment_offset, segment_length),
{
    let mut out: Vec<KfxTextLinkRange> = Vec::new();
    let segment_end = match segment_offset.checked_add(segment_length) {
        Some(e) => e,
        None => {
            return out;
        },
    };
    let mut i: usize = 0;
    while i < ranges.len()
        invariant
            0 <= i <= ranges@.len(),
            segment_end == segment_offset + segment_length,
            out@ == localize_spec(ranges@.subrange(0, i as int), segment_offset, segment_length),
        decreases ranges@.len() - i,
    {
        let range = ranges[i];
        proof {
            let next = ranges@.subrange(0, i + 1);
            assert(next.drop_last() =~= ranges@.subrange(0, i as int));
            assert(next.last() == range);
        }
        match range.text_offset.checked_add(range.text_length) {
            Some(range_end) => {
                let start = if range.text_offset >= segment_offset { range.text_offset } else { segment_offset };
                let end = if range_end <= segment_end { range_end } else { segment_end };
                if start < end {
                    out.push(KfxTextLinkRange {
                        text_offset: start - segment_offset,
                        text_length: end - start,
                        target_symbol_id: range.target_symbol_id,
                    });
                }
            },
            None => {},
        }
        i = i + 1;
    }
    assert(ranges@.subrange(0, ranges@.len() as int) =~= ranges@);
    out
}

/// The offset of the next nested text leaf: KFX reserves one scalar between
/// leaves (saturating at `usize::MAX`).
pub open spec fn next_leaf_offset(segment_offset: usize, segment_length: usize) -> usize {
    if segment_offset + segment_length + 1 > usize::MAX {
        usize::MAX
    } else {
        (segment_offset + segment_length + 1) as usize
    }
}

pub fn advance_kfx_nested_text_offset(segment_offset: usize, segment_length: usize) -> (r: usize)
    ensures
        r == next_leaf_offset(segment_offset, segment_length),
{
    let a = segment_offset.saturating_add(segment_length);
    a.saturating_add(1)
}

/// The link target of an image-only block: its own target, or else the
/// target of its single range when that range starts at the block's start.
pub open spec fn image_link_target_spec(block_target: Option<u64>, ranges: Seq<KfxTextLinkRange>) -> Option<u64> {
    match block_target {
        Some(t) => Some(t),
        None => if ranges.len() == 1 && ranges[0].text_offset == 0 {
            Some(ranges[0].target_symbol_id)
        } else {
            None
        },
    }
}

pub fn image_link_target(block_target: Option<u64>, link_ranges: &[KfxTextLinkRange]) -> (r: Option<u64>)
    ensures
        r == image_link_target_spec(block_target, link_ranges@),
{
    match block_target {
        Some(t) => Some(t),
        None => if link_ranges.len() == 1 && link_ranges[0].text_offset == 0 {
            Some(link_ranges[0].target_symbol_id)
        } else {
            None
        },
    }
}

/// Every localized range lies inside its segment and keeps its target.
pub proof fn lemma_localized_ranges_fit_segment(ranges: Seq<KfxTextLinkRange>, offset: usize, length: usize)
    ensures
        forall|k: int| 0 <= k < localize_spec(ranges, offset, length).len() ==> {
            let r = #[trigger] localize_spec(ranges, offset, length)[k];
            r.text_length > 0 && r.text_offset + r.text_length <= length
        },
        localize_spec(ranges, offset, length).len() <= ranges.len(),
    decreases ranges.len(),
{
    if ranges.len() > 0 && offset + length <= usize::MAX {
        lemma_localized_ranges_fit_segment(ranges.drop_last(), offset, length);
    }
}

} // verus!
