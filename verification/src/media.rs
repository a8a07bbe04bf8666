//! Recognizing raw media: signatures, raster dimensions, and the shape of a
//! declared resource.
use vstd::prelude::*;
use crate::text::{chars_of, chars_eq, chars_starts_with, lower, lower_chars, owned, string_from_chars};

verus! {

/// Whether `b` starts with the bytes of `p`.
pub open spec fn starts_with_bytes(b: Seq<u8>, p: Seq<u8>) -> bool {
    p.len() <= b.len() && b.subrange(0, p.len() as int) == p
}

pub fn bytes_start_with(b: &[u8], p: &[u8]) -> (r: bool)
    ensures
        r == starts_with_bytes(b@, p@),
{
    if p.len() > b.len() {
        return false;
    }
    let mut i: usize = 0;
    while i < p.len()
        invariant
            p@.len() <= b@.len(),
            0 <= i <= p@.len(),
            forall|j: int| 0 <= j < i ==> b@[j] == p@[j],
        decreases p@.len() - i,
    {
        if b[i] != p[i] {
            assert(b@.subrange(0, p@.len() as int)[i as int] != p@[i as int]);
            return false;
        }
        i = i + 1;
    }
    assert(b@.subrange(0, p@.len() as int) =~= p@);
    true
}

/// The media type and file extension of raw bytes, by signature.
pub open spec fn media_spec(b: Seq<u8>) -> (Seq<char>, Seq<char>) {
    if b.len() >= 2 && b[0] == 0xff && b[1] == 0xd8 {
        ("image/jpeg"@, "jpg"@)
    } else if b.len() >= 4 && b[0] == 0x89 && b[1] == 0x50 && b[2] == 0x4e && b[3] == 0x47 {
        ("image/png"@, "png"@)
    } else if b.len() >= 4 && b[0] == 0x47 && b[1] == 0x49 && b[2] == 0x46 && b[3] == 0x38 {
        ("image/gif"@, "gif"@)
    } else {
        ("application/octet-stream"@, "bin"@)
    }
}

/// The media type and file extension of raw bytes, by signature (JPEG,
/// PNG, GIF; anything else is `application/octet-stream`).
pub fn media_type_for_bytes(bytes: &[u8]) -> (r: (String, &'static str))
    ensures
        (r.0@, r.1@) == media_spec(bytes@),
{
    if bytes.len() >= 2 && bytes[0] == 0xff && bytes[1] == 0xd8 {
        (owned("image/jpeg"), "jpg")
    } else if bytes.len() >= 4 && bytes[0] == 0x89 && bytes[1] == 0x50 && bytes[2] == 0x4e
        && bytes[3] == 0x47 {
        (owned("image/png"), "png")
    } else if bytes.len() >= 4 && bytes[0] == 0x47 && bytes[1] == 0x49 && bytes[2] == 0x46
        && bytes[3] == 0x38 {
        (owned("image/gif"), "gif")
    } else {
        (owned("application/octet-stream"), "bin")
    }
}

/// The kind of an IR resource.
#[derive(Clone, Copy, Debug, PartialEq, Eq, Structural)]
pub enum ResourceKind {
    Jpeg,
    Png,
    Gif,
    Svg,
    Font,
    Stylesheet,
    Audio,
    Unknown,
}

/// The resource kind of a media type.
pub open spec fn kind_spec(media_type: Seq<char>) -> ResourceKind {
    if media_type == "image/jpeg"@ {
        ResourceKind::Jpeg
    } else if media_type == "image/png"@ {
        ResourceKind::Png
    } else if media_type == "image/gif"@ {
        ResourceKind::Gif
    } else {
        ResourceKind::Unknown
    }
}

pub fn resource_kind(media_type: &str) -> (r: ResourceKind)
    ensures
        r == kind_spec(media_type@),
{
    let m = chars_of(media_type);
    if eq_lit(&m, "image/jpeg") {
        ResourceKind::Jpeg
    } else if eq_lit(&m, "image/png") {
        ResourceKind::Png
    } else if eq_lit(&m, "image/gif") {
        ResourceKind::Gif
    } else {
        ResourceKind::Unknown
    }
}

pub open spec fn kind_label(kind: ResourceKind) -> Seq<char> {
    match kind {
        ResourceKind::Jpeg => "jpeg"@,
        ResourceKind::Png => "png"@,
        ResourceKind::Gif => "gif"@,
        ResourceKind::Svg => "svg"@,
        ResourceKind::Font => "font"@,
        ResourceKind::Stylesheet => "stylesheet"@,
        ResourceKind::Audio => "audio"@,
        ResourceKind::Unknown => "unknown"@,
    }
}

/// The report label of a resource kind.
pub fn resource_kind_label(kind: &ResourceKind) -> (r: &'static str)
    ensures
        r@ == kind_label(*kind),
{
    match kind {
        ResourceKind::Jpeg => "jpeg",
        ResourceKind::Png => "png",
        ResourceKind::Gif => "gif",
        ResourceKind::Svg => "svg",
        ResourceKind::Font => "font",
        ResourceKind::Stylesheet => "stylesheet",
        ResourceKind::Audio => "audio",
        ResourceKind::Unknown => "unknown",
    }
}

/// Whether characters equal a literal.
pub fn eq_lit(v: &Vec<char>, lit: &str) -> (r: bool)
    ensures
        r == (v@ == lit@),
{
    let l = chars_of(lit);
    chars_eq(v.as_slice(), l.as_slice())
}

/// Whether characters start with a literal.
pub fn starts_lit(v: &Vec<char>, lit: &str) -> (r: bool)
    ensures
        r == (lit@.len() <= v@.len() && v@.subrange(0, lit@.len() as int) == lit@),
{
    let l = chars_of(lit);
    chars_starts_with(v.as_slice(), l.as_slice())
}

pub open spec fn has_prefix(v: Seq<char>, p: Seq<char>) -> bool {
    p.len() <= v.len() && v.subrange(0, p.len() as int) == p
}

/// The text of an optional string, empty when absent (`unwrap_or_default`).
pub open spec fn or_empty(s: Option<Seq<char>>) -> Seq<char> {
    match s {
        Some(x) => x,
        None => Seq::empty(),
    }
}

pub open spec fn opt_view(s: Option<&str>) -> Option<Seq<char>> {
    match s {
        Some(x) => Some(x@),
        None => None,
    }
}

fn lowered(s: Option<&str>) -> (r: Vec<char>)
    ensures
        r@ == lower(or_empty(opt_view(s))),
{
    match s {
        Some(x) => {
            let c = chars_of(x);
            lower_chars(c.as_slice())
        },
        None => {
            let e: Vec<char> = Vec::new();
            assert(lower(Seq::<char>::empty()) =~= Seq::<char>::empty());
            e
        },
    }
}

/// The shape of a declared resource.
pub open spec fn shape_spec(format: Seq<char>, mime: Seq<char>, tiled: bool, overlapped: bool) -> Seq<char> {
    let f = lower(format);
    let m = lower(mime);
    if overlapped {
        "OverlappedTile"@
    } else if tiled {
        "Tiled"@
    } else if f == "pdf"@ || m == "pdf"@ || m == "application/pdf"@ {
        "PDF"@
    } else if f == "svg"@ || m == "image/svg+xml"@ {
        "Vector"@
    } else if f == "jpg"@ || f == "jpeg"@ || f == "png"@ || f == "gif"@ || f == "webp"@ || f
        == "jxr"@ || has_prefix(m, "image/"@) {
        "DirectMedia"@
    } else {
        "Unknown"@
    }
}

/// Classifies a declared resource by its format, media type, and tiling.
pub fn classify_resource_shape(
    format: Option<&str>,
    mime: Option<&str>,
    tiled: bool,
    overlapped_tiles: bool,
) -> (r: String)
    ensures
        r@ == shape_spec(or_empty(opt_view(format)), or_empty(opt_view(mime)), tiled, overlapped_tiles),
{
    if overlapped_tiles {
        return owned("OverlappedTile");
    }
    if tiled {
        return owned("Tiled");
    }
    let f = lowered(format);
    let m = lowered(mime);
    if eq_lit(&f, "pdf") || eq_lit(&m, "pdf") || eq_lit(&m, "application/pdf") {
        return owned("PDF");
    }
    if eq_lit(&f, "svg") || eq_lit(&m, "image/svg+xml") {
        return owned("Vector");
    }
    if eq_lit(&f, "jpg") || eq_lit(&f, "jpeg") || eq_lit(&f, "png") || eq_lit(&f, "gif") || eq_lit(
        &f,
        "webp",
    ) || eq_lit(&f, "jxr") || starts_lit(&m, "image/") {
        return owned("DirectMedia");
    }
    owned("Unknown")
}

/// Whether a declared resource is a font.
pub open spec fn font_spec(format: Seq<char>, mime: Seq<char>) -> bool {
    let f = lower(format);
    let m = lower(mime);
    f == "ttf"@ || f == "otf"@ || f == "woff"@ || f == "woff2"@ || f == "font"@ || has_prefix(
        m,
        "font/"@,
    ) || m == "application/font-woff"@ || m == "application/font-woff2"@ || m
        == "application/vnd.ms-opentype"@ || m == "application/x-font-ttf"@ || m
        == "application/x-font-opentype"@ || m == "application/x-font-truetype"@
}

/// Whether a declared resource's format or media type names a font.
pub fn looks_like_font_descriptor(format: Option<&str>, mime: Option<&str>) -> (r: bool)
    ensures
        r == font_spec(or_empty(opt_view(format)), or_empty(opt_view(mime))),
{
    let f = lowered(format);
    let m = lowered(mime);
    eq_lit(&f, "ttf") || eq_lit(&f, "otf") || eq_lit(&f, "woff") || eq_lit(&f, "woff2") || eq_lit(
        &f,
        "font",
    ) || starts_lit(&m, "font/") || eq_lit(&m, "application/font-woff") || eq_lit(
        &m,
        "application/font-woff2",
    ) || eq_lit(&m, "application/vnd.ms-opentype") || eq_lit(&m, "application/x-font-ttf")
        || eq_lit(&m, "application/x-font-opentype") || eq_lit(&m, "application/x-font-truetype")
}

/// Big-endian 16-bit value at `p`.
pub open spec fn be16(b: Seq<u8>, p: int) -> u32 {
    (b[p] as int * 256 + b[p + 1] as int) as u32
}

/// Big-endian 32-bit value at `p`.
pub open spec fn be32(b: Seq<u8>, p: int) -> u32 {
    (b[p] as int * 16777216 + b[p + 1] as int * 65536 + b[p + 2] as int * 256 + b[p + 3] as int) as u32
}

/// Little-endian 16-bit value at `p`.
pub open spec fn le16u(b: Seq<u8>, p: int) -> u32 {
    (b[p] as int + b[p + 1] as int * 256) as u32
}

/// The first position at or after `i` that does not hold `0xff`.
pub open spec fn skip_fill(b: Seq<u8>, i: int) -> int
    decreases b.len() - i,
{
    if 0 <= i < b.len() && b[i] == 0xff {
        skip_fill(b, i + 1)
    } else {
        i
    }
}

pub open spec fn is_standalone_marker(m: u8) -> bool {
    m == 0x01 || (0xd0 <= m <= 0xd7)
}

pub open spec fn is_frame_marker(m: u8) -> bool {
    (0xc0 <= m <= 0xc3) || (0xc5 <= m <= 0xc7) || (0xc9 <= m <= 0xcb) || (0xcd <= m <= 0xcf)
}

pub proof fn lemma_skip_fill_bounds(b: Seq<u8>, i: int)
    requires
        0 <= i,
    ensures
        i <= skip_fill(b, i),
        i <= b.len() ==> skip_fill(b, i) <= b.len(),
    decreases b.len() - i,
{
    if 0 <= i < b.len() && b[i] == 0xff {
        lemma_skip_fill_bounds(b, i + 1);
    }
}

/// The JPEG segment walk from `offset`: the first frame header's
/// `(width, height)`, or `None` at the end of the headers or on a malformed
/// segment.
pub open spec fn jpeg_scan(b: Seq<u8>, offset: int) -> Option<(u32, u32)>
    decreases b.len() - offset,
{
    if offset < 0 || offset >= b.len() {
        None
    } else {
        let o = skip_fill(b, offset);
        if o < offset || o >= b.len() {
            None
        } else {
            let marker = b[o];
            let after = o + 1;
            if marker == 0xd9 || marker == 0xda {
                None
            } else if is_standalone_marker(marker) {
                jpeg_scan(b, after)
            } else if after + 2 > b.len() {
                None
            } else {
                let segment_length = be16(b, after);
                if segment_length < 2 {
                    None
                } else {
                    let segment_start = after + 2;
                    if is_frame_marker(marker) {
                        if segment_start + 5 > b.len() {
                            None
                        } else {
                            Some((be16(b, segment_start + 3), be16(b, segment_start + 1)))
                        }
                    } else if after + segment_length >= b.len() {
                        None
                    } else {
                        jpeg_scan(b, after + segment_length)
                    }
                }
            }
        }
    }
}

/// The pixel dimensions of PNG, GIF or JPEG bytes.
pub open spec fn raster_spec(b: Seq<u8>) -> Option<(u32, u32)> {
    if b.len() >= 24 && b[0] == 0x89 && b[1] == 0x50 && b[2] == 0x4e && b[3] == 0x47 && b[4] == 0x0d
        && b[5] == 0x0a && b[6] == 0x1a && b[7] == 0x0a {
        Some((be32(b, 16), be32(b, 20)))
    } else if b.len() >= 10 && b[0] == 0x47 && b[1] == 0x49 && b[2] == 0x46 && b[3] == 0x38 && (b[4]
        == 0x37 || b[4] == 0x39) && b[5] == 0x61 {
        Some((le16u(b, 6), le16u(b, 8)))
    } else if !(b.len() >= 2 && b[0] == 0xff && b[1] == 0xd8) {
        None
    } else {
        jpeg_scan(b, 2)
    }
}

/// The `(width, height)` recorded in PNG, GIF or JPEG headers.
pub fn raster_dimensions(bytes: &[u8]) -> (r: Option<(u32, u32)>)
    ensures
        r == raster_spec(bytes@),
{
    let n = bytes.len();
    if n >= 24 && bytes[0] == 0x89 && bytes[1] == 0x50 && bytes[2] == 0x4e && bytes[3] == 0x47
        && bytes[4] == 0x0d && bytes[5] == 0x0a && bytes[6] == 0x1a && bytes[7] == 0x0a {
        let w = (bytes[16] as u32) * 16777216 + (bytes[17] as u32) * 65536 + (bytes[18] as u32) * 256
            + bytes[19] as u32;
        let h = (bytes[20] as u32) * 16777216 + (bytes[21] as u32) * 65536 + (bytes[22] as u32) * 256
            + bytes[23] as u32;
        return Some((w, h));
    }
    if n >= 10 && bytes[0] == 0x47 && bytes[1] == 0x49 && bytes[2] == 0x46 && bytes[3] == 0x38
        && (bytes[4] == 0x37 || bytes[4] == 0x39) && bytes[5] == 0x61 {
        let w = bytes[6] as u32 + (bytes[7] as u32) * 256;
        let h = bytes[8] as u32 + (bytes[9] as u32) * 256;
        return Some((w, h));
    }
    if !(n >= 2 && bytes[0] == 0xff && bytes[1] == 0xd8) {
        return None;
    }
    let mut offset: usize = 2;
    while offset < n
        invariant
            n == bytes@.len(),
            2 <= offset,
            raster_spec(bytes@) == jpeg_scan(bytes@, offset as int),
        decreases n - offset,
    {
        let start = offset;
        while offset < n && bytes[offset] == 0xff
            invariant
                n == bytes@.len(),
                start <= offset <= n,
                skip_fill(bytes@, start as int) == skip_fill(bytes@, offset as int),
            decreases n - offset,
        {
            offset = offset + 1;
        }
        proof {
            lemma_skip_fill_bounds(bytes@, start as int);
        }
        if offset >= n {
            return None;
        }
        let marker = bytes[offset];
        offset = offset + 1;
        if marker == 0xd9 || marker == 0xda {
            return None;
        }
        if marker == 0x01 || (0xd0 <= marker && marker <= 0xd7) {
            continue;
        }
        if offset > n - 2 {
            return None;
        }
        let segment_length = (bytes[offset] as usize) * 256 + bytes[offset + 1] as usize;
        if segment_length < 2 {
            return None;
        }
        let segment_start = offset + 2;
        if (0xc0 <= marker && marker <= 0xc3) || (0xc5 <= marker && marker <= 0xc7) || (0xc9
            <= marker && marker <= 0xcb) || (0xcd <= marker && marker <= 0xcf) {
            if segment_start > n - 5 {
                return None;
            }
            let w = (bytes[segment_start + 3] as u32) * 256 + bytes[segment_start + 4] as u32;
            let h = (bytes[segment_start + 1] as u32) * 256 + bytes[segment_start + 2] as u32;
            return Some((w, h));
        }
        if segment_length >= n - offset {
            return None;
        }
        offset = offset + segment_length;
    }
    None
}

/// A PNG reports its IHDR width first and its height second: the
/// big-endian words at bytes 16..20 and 20..24.
pub proof fn lemma_png_width_then_height(b: Seq<u8>)
    requires
        b.len() >= 24,
        b[0] == 0x89 && b[1] == 0x50 && b[2] == 0x4e && b[3] == 0x47,
        b[4] == 0x0d && b[5] == 0x0a && b[6] == 0x1a && b[7] == 0x0a,
    ensures
        raster_spec(b) is Some,
        (raster_spec(b)->Some_0).0 as int == b[16] as int * 16777216 + b[17] as int * 65536 + b[18] as int * 256 + b[19] as int,
        (raster_spec(b)->Some_0).1 as int == b[20] as int * 16777216 + b[21] as int * 65536 + b[22] as int * 256 + b[23] as int,
{
}

/// A GIF reports its logical screen width first and its height second: the
/// little-endian words at bytes 6..8 and 8..10.
pub proof fn lemma_gif_width_then_height(b: Seq<u8>)
    requires
        b.len() >= 10,
        b[0] == 0x47 && b[1] == 0x49 && b[2] == 0x46 && b[3] == 0x38,
        b[4] == 0x37 || b[4] == 0x39,
        b[5] == 0x61,
    ensures
        raster_spec(b) is Some,
        (raster_spec(b)->Some_0).0 as int == b[6] as int + b[7] as int * 256,
        (raster_spec(b)->Some_0).1 as int == b[8] as int + b[9] as int * 256,
{
}

/// A JPEG whose first segment is a baseline frame header reports the frame's
/// width (bytes 9..11) first and its height (bytes 7..9) second.
pub proof fn lemma_jpeg_frame_width_then_height(b: Seq<u8>)
    requires
        b.len() >= 11,
        b[0] == 0xff && b[1] == 0xd8 && b[2] == 0xff && b[3] == 0xc0,
        b[4] as int * 256 + b[5] as int >= 2,
    ensures
        raster_spec(b) is Some,
        (raster_spec(b)->Some_0).0 as int == b[9] as int * 256 + b[10] as int,
        (raster_spec(b)->Some_0).1 as int == b[7] as int * 256 + b[8] as int,
{
    assert(skip_fill(b, 3) == 3);
    assert(skip_fill(b, 2) == 3);
    reveal_with_fuel(jpeg_scan, 2);
}

/// The same header gives the same dimensions whatever follows it: only the
/// first 24 bytes of a PNG matter.
pub proof fn lemma_png_dimensions_ignore_the_rest(a: Seq<u8>, b: Seq<u8>)
    requires
        a.len() >= 24,
        b.len() >= 24,
        a.subrange(0, 24) == b.subrange(0, 24),
        a[0] == 0x89 && a[1] == 0x50 && a[2] == 0x4e && a[3] == 0x47,
        a[4] == 0x0d && a[5] == 0x0a && a[6] == 0x1a && a[7] == 0x0a,
    ensures
        raster_spec(a) == raster_spec(b),
{
    assert forall|i: int| 0 <= i < 24 implies a[i] == b[i] by {
        assert(a.subrange(0, 24)[i] == a[i]);
        assert(b.subrange(0, 24)[i] == b[i]);
        assert(a.subrange(0, 24)[i] == b.subrange(0, 24)[i]);
    }
}

/// Lower-case hexadecimal digit of `d < 16`.
pub open spec fn hex_digit(d: nat) -> char {
    if d < 10 {
        (48 + d) as char
    } else {
        (87 + d) as char
    }
}

/// The lower-case hexadecimal text of a byte string.
pub open spec fn hex_spec(b: Seq<u8>) -> Seq<char>
    decreases b.len(),
{
    if b.len() == 0 {
        Seq::empty()
    } else {
        hex_spec(b.subrange(0, b.len() - 1)).push(hex_digit((b[b.len() - 1] / 16) as nat)).push(
            hex_digit((b[b.len() - 1] % 16) as nat),
        )
    }
}

fn hex_char(d: u8) -> (c: char)
    requires
        d < 16,
    ensures
        c == hex_digit(d as nat),
{
    if d < 10 {
        (48 + d) as char
    } else {
        (87 + d) as char
    }
}

/// The lower-case hexadecimal text of a byte string.
pub fn hex_lower(bytes: &[u8]) -> (r: String)
    ensures
        r@ == hex_spec(bytes@),
{
    let mut out: Vec<char> = Vec::new();
    let mut i: usize = 0;
    while i < bytes.len()
        invariant
            0 <= i <= bytes@.len(),
            out@ == hex_spec(bytes@.subrange(0, i as int)),
        decreases bytes@.len() - i,
    {
        let b = bytes[i];
        out.push(hex_char(b / 16));
        out.push(hex_char(b % 16));
        proof {
            assert(bytes@.subrange(0, i + 1).subrange(0, i as int) =~= bytes@.subrange(0, i as int));
        }
        i = i + 1;
    }
    assert(bytes@.subrange(0, bytes@.len() as int) =~= bytes@);
    string_from_chars(out.as_slice())
}

} // verus!
