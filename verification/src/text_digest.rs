//! Content-free digests of text: line breaks unified, Unicode NFC, then
//! SHA-256 over the UTF-8 bytes and a count of scalar values.
use vstd::prelude::*;
use vstd::utf8::encode_utf8;
use unicode_normalization::UnicodeNormalization;
use crate::digest::{sha256, sha256_digest};
use crate::media::{hex_lower, hex_spec};
use crate::text::{chars_of, string_from_chars};

verus! {

/// The Unicode Normalization Form C of a text.
pub uninterp spec fn nfc(s: Seq<char>) -> Seq<char>;

/// `UnicodeNormalization::nfc` (unicode-normalization), collected into a
/// `String`: the canonical composition of `s`. The contract names the
/// result; nothing more about the normalization is stated.
#[verifier::external_body]
fn nfc_string(s: &str) -> (r: String)
    ensures
        r@ == nfc(s@),
{
    s.nfc().collect::<String>()
}

/// The text with every CRLF pair and every lone CR made a LF.
pub open spec fn unify_line_breaks(s: Seq<char>) -> Seq<char>
    decreases s.len(),
{
    if s.len() == 0 {
        s
    } else if s[0] == '\r' && s.len() >= 2 && s[1] == '\n' {
        seq!['\n'] + unify_line_breaks(s.subrange(2, s.len() as int))
    } else if s[0] == '\r' {
        seq!['\n'] + unify_line_breaks(s.subrange(1, s.len() as int))
    } else {
        seq![s[0]] + unify_line_breaks(s.subrange(1, s.len() as int))
    }
}

/// Unifies CRLF and CR line breaks to LF.
pub fn unify_line_break_chars(s: &[char]) -> (r: Vec<char>)
    ensures
        r@ == unify_line_breaks(s@),
{
    let mut out: Vec<char> = Vec::new();
    let mut i: usize = 0;
    assert(s@.subrange(0, s@.len() as int) =~= s@);
    assert(out@ + unify_line_breaks(s@) =~= unify_line_breaks(s@));
    while i < s.len()
        invariant
            0 <= i <= s@.len(),
            out@ + unify_line_breaks(s@.subrange(i as int, s@.len() as int)) == unify_line_breaks(s@),
        decreases s@.len() - i,
    {
        let ghost rest = s@.subrange(i as int, s@.len() as int);
        let ghost before = out@;
        if s[i] == '\r' && i + 1 < s.len() && s[i + 1] == '\n' {
            assert(rest.subrange(2, rest.len() as int) =~= s@.subrange(i + 2, s@.len() as int));
            out.push('\n');
            assert(out@ + unify_line_breaks(s@.subrange(i + 2, s@.len() as int)) =~= before + unify_line_breaks(rest));
            i = i + 2;
        } else {
            assert(rest.subrange(1, rest.len() as int) =~= s@.subrange(i + 1, s@.len() as int));
            let c = if s[i] == '\r' { '\n' } else { s[i] };
            out.push(c);
            assert(out@ + unify_line_breaks(s@.subrange(i + 1, s@.len() as int)) =~= before + unify_line_breaks(rest));
            i = i + 1;
        }
    }
    assert(unify_line_breaks(s@.subrange(i as int, s@.len() as int)) =~= Seq::<char>::empty());
    assert(out@ + Seq::<char>::empty() =~= out@);
    out
}

/// The normalized form of a text that the digest covers.
pub open spec fn normalized_text(s: Seq<char>) -> Seq<char> {
    nfc(unify_line_breaks(s))
}

/// The digest of a text and its number of scalar values, both taken after
/// line breaks are unified and the text is put in NFC.
pub fn normalized_text_digest(text: &str) -> (r: (String, usize))
    ensures
        r.0@ == hex_spec(sha256(encode_utf8(normalized_text(text@)))),
        r.1 == normalized_text(text@).len(),
{
    let chars = chars_of(text);
    let unified = unify_line_break_chars(chars.as_slice());
    let line_normalized = string_from_chars(unified.as_slice());
    let normalized = nfc_string(line_normalized.as_str());
    let scalars = chars_of(normalized.as_str());
    let bytes: &[u8] = normalized.as_str().as_bytes();
    let digest = sha256_digest(bytes);
    (hex_lower(digest.as_slice()), scalars.len())
}

/// The digest the fidelity report gives a text.
pub open spec fn digest_of(t: Seq<char>) -> Seq<char> {
    hex_spec(sha256(encode_utf8(normalized_text(t))))
}

/// One text unit as decoding captured it.
#[derive(Debug)]
pub struct CapturedTextUnit {
    pub content_fragment_order: usize,
    pub document_order: Option<usize>,
    pub text_segment_count: usize,
    pub text: String,
}

/// The text that decoding captured: per source fragment, per semantic
/// document, and the references that did not resolve.
#[derive(Debug)]
pub struct TextTraceCapture {
    pub source_fragments: Vec<CapturedTextUnit>,
    pub semantic_documents: Vec<CapturedTextUnit>,
    pub unresolved_text_reference_count: usize,
}

/// The content-free summary of one text unit.
#[derive(Debug)]
pub struct KfxFidelityTextUnit {
    pub content_fragment_order: Option<usize>,
    pub document_order: Option<usize>,
    pub text_segment_count: usize,
    pub text_node_count: usize,
    pub unicode_scalar_count: usize,
    pub normalized_sha256_audit_only: String,
}

pub struct TextUnitView {
    pub content_fragment_order: Option<usize>,
    pub document_order: Option<usize>,
    pub text_segment_count: usize,
    pub text_node_count: usize,
    pub unicode_scalar_count: usize,
    pub digest: Seq<char>,
}

impl View for KfxFidelityTextUnit {
    type V = TextUnitView;

    open spec fn view(&self) -> TextUnitView {
        TextUnitView {
            content_fragment_order: self.content_fragment_order,
            document_order: self.document_order,
            text_segment_count: self.text_segment_count,
            text_node_count: self.text_node_count,
            unicode_scalar_count: self.unicode_scalar_count,
            digest: self.normalized_sha256_audit_only@,
        }
    }
}

/// The text part of the fidelity report.
#[derive(Debug)]
pub struct KfxFidelityText {
    pub text_node_count: usize,
    pub unicode_scalar_count: usize,
    pub normalized_sha256_audit_only: String,
    pub source_text_segment_count: usize,
    pub unresolved_text_reference_count: usize,
    pub source_unicode_scalar_count: usize,
    pub source_normalized_sha256_audit_only: String,
    pub semantic_text_segment_count: usize,
    pub semantic_unicode_scalar_count: usize,
    pub semantic_normalized_sha256_audit_only: String,
    pub source_fragments: Vec<KfxFidelityTextUnit>,
    pub semantic_documents: Vec<KfxFidelityTextUnit>,
    pub ir_documents: Vec<KfxFidelityTextUnit>,
    pub normalization: String,
}

pub open spec fn unit_views(s: Seq<KfxFidelityTextUnit>) -> Seq<TextUnitView> {
    s.map_values(|u: KfxFidelityTextUnit| u@)
}

/// The summary of a captured unit; `keep_document_order` keeps the unit's
/// document position (semantic documents), otherwise it is dropped.
pub open spec fn unit_summary(c: CapturedTextUnit, keep_document_order: bool) -> TextUnitView {
    TextUnitView {
        content_fragment_order: Some(c.content_fragment_order),
        document_order: if keep_document_order { c.document_order } else { None },
        text_segment_count: c.text_segment_count,
        text_node_count: 0,
        unicode_scalar_count: normalized_text(c.text@).len() as usize,
        digest: digest_of(c.text@),
    }
}

pub open spec fn unit_summaries(s: Seq<CapturedTextUnit>, keep_document_order: bool) -> Seq<TextUnitView> {
    s.map_values(|c: CapturedTextUnit| unit_summary(c, keep_document_order))
}

/// The units' texts, one after another.
pub open spec fn joined_text(s: Seq<CapturedTextUnit>) -> Seq<char>
    decreases s.len(),
{
    if s.len() == 0 {
        Seq::empty()
    } else {
        joined_text(s.drop_last()) + s.last().text@
    }
}

/// The units' segment counts, added up.
pub open spec fn segment_total(s: Seq<CapturedTextUnit>) -> nat
    decreases s.len(),
{
    if s.len() == 0 {
        0
    } else {
        segment_total(s.drop_last()) + s.last().text_segment_count as nat
    }
}

proof fn lemma_segment_prefix(s: Seq<CapturedTextUnit>, i: int)
    requires
        0 <= i <= s.len(),
    ensures
        segment_total(s.take(i)) <= segment_total(s),
    decreases s.len() - i,
{
    if i < s.len() {
        lemma_segment_prefix(s, i + 1);
        assert(s.take(i + 1).drop_last() =~= s.take(i));
    } else {
        assert(s.take(i) =~= s);
    }
}

/// Summarizes one list of units: appends their summaries to `out`, and
/// returns the segment count added to `segments`, and the digest and scalar
/// count of their joined text.
fn summarize_units(
    units: &Vec<CapturedTextUnit>,
    keep_document_order: bool,
    segments: usize,
    out: &mut Vec<KfxFidelityTextUnit>,
) -> (r: (usize, String, usize))
    requires
        segments + segment_total(units@) <= usize::MAX,
    ensures
        r.0 == segments + segment_total(units@),
        r.1@ == digest_of(joined_text(units@)),
        r.2 == normalized_text(joined_text(units@)).len(),
        unit_views(final(out)@) == unit_views(old(out)@) + unit_summaries(units@, keep_document_order),
{
    let ghost start = unit_views(out@);
    let mut joined: Vec<char> = Vec::new();
    let mut total = segments;
    let mut i: usize = 0;
    while i < units.len()
        invariant
            0 <= i <= units@.len(),
            segments + segment_total(units@) <= usize::MAX,
            total == segments + segment_total(units@.take(i as int)),
            joined@ == joined_text(units@.take(i as int)),
            unit_views(out@) == start + unit_summaries(units@.take(i as int), keep_document_order),
        decreases units@.len() - i,
    {
        let ghost t = units@.take(i + 1);
        proof {
            assert(t.drop_last() =~= units@.take(i as int));
            assert(t.last() == units@[i as int]);
            lemma_segment_prefix(units@, i + 1);
        }
        let unit = &units[i];
        total = total + unit.text_segment_count;
        let piece = chars_of(unit.text.as_str());
        let mut k: usize = 0;
        let ghost base = joined@;
        while k < piece.len()
            invariant
                0 <= k <= piece@.len(),
                joined@ == base + piece@.take(k as int),
            decreases piece@.len() - k,
        {
            joined.push(piece[k]);
            assert(joined@ =~= base + piece@.take(k + 1));
            k = k + 1;
        }
        assert(piece@.take(k as int) =~= piece@);
        let (digest, scalars) = normalized_text_digest(unit.text.as_str());
        let ghost before = out@;
        out.push(KfxFidelityTextUnit {
            content_fragment_order: Some(unit.content_fragment_order),
            document_order: if keep_document_order { unit.document_order } else { None },
            text_segment_count: unit.text_segment_count,
            text_node_count: 0,
            unicode_scalar_count: scalars,
            normalized_sha256_audit_only: digest,
        });
        assert(unit_views(out@) =~= unit_views(before).push(unit_summary(*unit, keep_document_order)));
        assert(unit_summaries(t, keep_document_order) =~= unit_summaries(units@.take(i as int), keep_document_order).push(unit_summary(*unit, keep_document_order)));
        i = i + 1;
    }
    assert(units@.take(i as int) =~= units@);
    let text = string_from_chars(joined.as_slice());
    let (digest, scalars) = normalized_text_digest(text.as_str());
    (total, digest, scalars)
}

/// Fills the captured-text part of the fidelity report.
pub fn summarize_captured_text(capture: &TextTraceCapture, text: &mut KfxFidelityText)
    requires
        old(text).source_text_segment_count + segment_total(capture.source_fragments@) <= usize::MAX,
        old(text).semantic_text_segment_count + segment_total(capture.semantic_documents@) <= usize::MAX,
    ensures
        final(text).unresolved_text_reference_count == capture.unresolved_text_reference_count,
        final(text).source_text_segment_count == old(text).source_text_segment_count + segment_total(capture.source_fragments@),
        unit_views(final(text).source_fragments@) == unit_views(old(text).source_fragments@) + unit_summaries(capture.source_fragments@, false),
        final(text).source_unicode_scalar_count == normalized_text(joined_text(capture.source_fragments@)).len(),
        final(text).source_normalized_sha256_audit_only@ == digest_of(joined_text(capture.source_fragments@)),
        final(text).semantic_text_segment_count == old(text).semantic_text_segment_count + segment_total(capture.semantic_documents@),
        unit_views(final(text).semantic_documents@) == unit_views(old(text).semantic_documents@) + unit_summaries(capture.semantic_documents@, true),
        final(text).semantic_unicode_scalar_count == normalized_text(joined_text(capture.semantic_documents@)).len(),
        final(text).semantic_normalized_sha256_audit_only@ == digest_of(joined_text(capture.semantic_documents@)),
        final(text).text_node_count == old(text).text_node_count,
        final(text).unicode_scalar_count == old(text).unicode_scalar_count,
        final(text).normalized_sha256_audit_only == old(text).normalized_sha256_audit_only,
        final(text).ir_documents == old(text).ir_documents,
        final(text).normalization == old(text).normalization,
{
    text.unresolved_text_reference_count = capture.unresolved_text_reference_count;
    let (segments, digest, scalars) = summarize_units(
        &capture.source_fragments,
        false,
        text.source_text_segment_count,
        &mut text.source_fragments,
    );
    text.source_text_segment_count = segments;
    text.source_unicode_scalar_count = scalars;
    text.source_normalized_sha256_audit_only = digest;
    let (segments, digest, scalars) = summarize_units(
        &capture.semantic_documents,
        true,
        text.semantic_text_segment_count,
        &mut text.semantic_documents,
    );
    text.semantic_text_segment_count = segments;
    text.semantic_unicode_scalar_count = scalars;
    text.semantic_normalized_sha256_audit_only = digest;
}

} // verus!
