//! The `CONT` container and `ENTY` entity framing of KFX files.
use vstd::prelude::*;
use vstd::slice::slice_subrange;
use vstd::slice::slice_to_vec;
use crate::error::{AmazonKfxError, KfxErrorView, ParseMode, error_text};
use crate::ion::{IonError, IonModel, IonValue, decode_one, decode_one_spec, value_result};
use crate::text::{decimal, decimal_string, join2, owned, signed_decimal, signed_decimal_string};
use crate::value::{as_int, first_field, int_field, int_of, struct_get, struct_get_from_fields, struct_fields_of, unwrap_struct};
use crate::ion::field_models;

verus! {

pub const CONT_HEADER_MIN: usize = 18;
pub const CONT_VERSION: u16 = 2;
pub const ENTITY_INDEX_ENTRY: usize = 24;
pub const ENTY_HEADER_MIN: usize = 10;
pub const ENTY_HEADER_LEN: usize = 21;
pub const MAX_ENTITIES: usize = 1_000_000;

pub const FIELD_CONTAINER_ID: u64 = 409;
pub const FIELD_COMPRESSION: u64 = 410;
pub const FIELD_DRM_SCHEME: u64 = 411;
pub const FIELD_CHUNK_SIZE: u64 = 412;
pub const FIELD_INDEX_OFFSET: u64 = 413;
pub const FIELD_INDEX_LENGTH: u64 = 414;
pub const FIELD_DOC_SYMBOL_OFFSET: u64 = 415;
pub const FIELD_DOC_SYMBOL_LENGTH: u64 = 416;
pub const FIELD_CAPABILITIES_OFFSET: u64 = 594;
pub const FIELD_CAPABILITIES_LENGTH: u64 = 595;

/// Little-endian 16-bit value at `p`.
pub open spec fn le16(b: Seq<u8>, p: int) -> u16 {
    (b[p] as int + 256 * b[p + 1] as int) as u16
}

/// Little-endian 32-bit value at `p`.
pub open spec fn le32(b: Seq<u8>, p: int) -> u32 {
    (b[p] as int + 256 * b[p + 1] as int + 65536 * b[p + 2] as int + 16777216 * b[p + 3] as int) as u32
}

/// Little-endian 64-bit value at `p`.
pub open spec fn le64(b: Seq<u8>, p: int) -> u64 {
    (le32(b, p) as int + 4294967296 * le32(b, p + 4) as int) as u64
}

/// Reads a little-endian `u16` at `offset`, if the input holds two bytes there.
pub fn read_u16(bytes: &[u8], offset: usize) -> (r: Option<u16>)
    ensures
        r is Some <==> offset + 2 <= bytes@.len(),
        r matches Some(v) ==> v == le16(bytes@, offset as int),
{
    if offset > bytes.len() || bytes.len() - offset < 2 {
        return None;
    }
    let v = bytes[offset] as u16 + 256 * (bytes[offset + 1] as u16);
    Some(v)
}

/// Reads a little-endian `u32` at `offset`, if the input holds four bytes there.
pub fn read_u32(bytes: &[u8], offset: usize) -> (r: Option<u32>)
    ensures
        r is Some <==> offset + 4 <= bytes@.len(),
        r matches Some(v) ==> v == le32(bytes@, offset as int),
{
    if offset > bytes.len() || bytes.len() - offset < 4 {
        return None;
    }
    let v = bytes[offset] as u32 + 256 * (bytes[offset + 1] as u32) + 65536 * (bytes[offset
        + 2] as u32) + 16777216 * (bytes[offset + 3] as u32);
    Some(v)
}

/// Reads a little-endian `u64` at `offset`, if the input holds eight bytes there.
pub fn read_u64(bytes: &[u8], offset: usize) -> (r: Option<u64>)
    ensures
        r is Some <==> offset + 8 <= bytes@.len(),
        r matches Some(v) ==> v == le64(bytes@, offset as int),
{
    if offset > bytes.len() || bytes.len() - offset < 8 {
        return None;
    }
    let lo = read_u32(bytes, offset).unwrap();
    let hi = read_u32(bytes, offset + 4).unwrap();
    Some(lo as u64 + 4294967296 * (hi as u64))
}

/// The fixed part of a `CONT` header.
#[derive(Clone, Copy, Debug, PartialEq, Eq, Structural)]
pub struct ContainerHeader {
    pub version: u16,
    pub header_len: usize,
    pub info_offset: usize,
    pub info_length: usize,
}

pub open spec fn has_cont_signature(b: Seq<u8>, p: int) -> bool {
    b[p] == 0x43 && b[p + 1] == 0x4f && b[p + 2] == 0x4e && b[p + 3] == 0x54
}

pub open spec fn has_enty_signature(b: Seq<u8>, p: int) -> bool {
    b[p] == 0x45 && b[p + 1] == 0x4e && b[p + 2] == 0x54 && b[p + 3] == 0x59
}

/// The `CONT` header at `start`.
pub open spec fn container_header_spec(b: Seq<u8>, start: int) -> Result<ContainerHeader, KfxErrorView> {
    if start + 18 > usize::MAX || start + 18 > b.len() {
        Err(KfxErrorView::Truncated(start))
    } else if !has_cont_signature(b, start) {
        Err(KfxErrorView::InvalidHeader("missing CONT signature"@))
    } else {
        let version = le16(b, start + 4);
        if version != 1 && version != 2 {
            Err(KfxErrorView::UnsupportedVersion(version))
        } else {
            let header_len = le32(b, start + 6);
            if header_len < 18 || start + header_len > usize::MAX {
                Err(KfxErrorView::InvalidHeader("header length is too small"@))
            } else {
                Ok(
                    ContainerHeader {
                        version,
                        header_len: header_len as usize,
                        info_offset: le32(b, start + 10) as usize,
                        info_length: le32(b, start + 14) as usize,
                    },
                )
            }
        }
    }
}

pub open spec fn result_view<T>(r: Result<T, AmazonKfxError>) -> Result<T, KfxErrorView> {
    match r {
        Ok(v) => Ok(v),
        Err(e) => Err(e@),
    }
}

/// Reads the `CONT` header at `start`.
pub fn read_container_header(bytes: &[u8], start: usize) -> (r: Result<ContainerHeader, AmazonKfxError>)
    ensures
        result_view(r) == container_header_spec(bytes@, start as int),
{
    if start > usize::MAX - CONT_HEADER_MIN || start + CONT_HEADER_MIN > bytes.len() {
        return Err(AmazonKfxError::Truncated(start));
    }
    if !(bytes[start] == 0x43 && bytes[start + 1] == 0x4f && bytes[start + 2] == 0x4e && bytes[start
        + 3] == 0x54) {
        return Err(AmazonKfxError::InvalidHeader(owned("missing CONT signature")));
    }
    let version = read_u16(bytes, start + 4).unwrap();
    if version != 1 && version != CONT_VERSION {
        return Err(AmazonKfxError::UnsupportedVersion(version));
    }
    let header_len = read_u32(bytes, start + 6).unwrap() as usize;
    if header_len < CONT_HEADER_MIN || start > usize::MAX - header_len {
        return Err(AmazonKfxError::InvalidHeader(owned("header length is too small")));
    }
    let info_offset = read_u32(bytes, start + 10).unwrap() as usize;
    let info_length = read_u32(bytes, start + 14).unwrap() as usize;
    Ok(ContainerHeader { version, header_len, info_offset, info_length })
}

/// The end of `[base + offset, base + offset + length)` when it lies within
/// `total` bytes.
pub open spec fn slice_end_spec(base: int, offset: int, length: int, total: int) -> Result<usize, KfxErrorView> {
    if base + offset > usize::MAX {
        Err(KfxErrorView::Truncated(base))
    } else if base + offset + length > usize::MAX {
        Err(KfxErrorView::Truncated(base + offset))
    } else if base + offset + length > total {
        Err(KfxErrorView::Truncated(base + offset))
    } else {
        Ok((base + offset + length) as usize)
    }
}

/// The end of `[base + offset, base + offset + length)`, checked against
/// overflow and against `total`.
pub fn checked_slice_end(base: usize, offset: usize, length: usize, total: usize) -> (r: Result<usize, AmazonKfxError>)
    ensures
        result_view(r) == slice_end_spec(base as int, offset as int, length as int, total as int),
{
    if base > usize::MAX - offset {
        return Err(AmazonKfxError::Truncated(base));
    }
    let start = base + offset;
    if start > usize::MAX - length {
        return Err(AmazonKfxError::Truncated(start));
    }
    let end = start + length;
    if end > total {
        return Err(AmazonKfxError::Truncated(start));
    }
    Ok(end)
}

/// Decoding with the recovery rule: outside `Recovery` a failure is final;
/// in `Recovery` the range starting at `retry_start` is decoded once more.
pub open spec fn decode_recovering_spec(
    b: Seq<u8>,
    start: int,
    retry_start: int,
    end: int,
    mode: ParseMode,
) -> Result<(IonModel, int), KfxErrorView> {
    match decode_one_spec(b, start, end) {
        Ok(x) => Ok(x),
        Err(e) => if mode != ParseMode::Recovery {
            Err(KfxErrorView::Ion(e))
        } else {
            match decode_one_spec(b, retry_start, end) {
                Ok(x) => Ok(x),
                Err(e2) => Err(KfxErrorView::Ion(e2)),
            }
        },
    }
}

pub open spec fn decoded_view(r: Result<(IonValue, usize), AmazonKfxError>) -> Result<(IonModel, int), KfxErrorView> {
    match r {
        Ok((v, n)) => Ok((v@, n as int)),
        Err(e) => Err(e@),
    }
}

/// The second attempt at a failed decode: outside `Recovery` the failure is
/// reported; in `Recovery` the range is decoded again from `start`.
pub fn recover_ion(bytes: &[u8], start: usize, end: usize, mode: ParseMode, error: IonError) -> (r: Result<(IonValue, usize), AmazonKfxError>)
    requires
        end <= bytes@.len(),
    ensures
        decoded_view(r) == (if mode != ParseMode::Recovery {
            Err(KfxErrorView::Ion(error))
        } else {
            match decode_one_spec(bytes@, start as int, end as int) {
                Ok(x) => Ok(x),
                Err(e2) => Err(KfxErrorView::Ion(e2)),
            }
        }),
{
    if mode != ParseMode::Recovery {
        return Err(AmazonKfxError::Ion(error));
    }
    match decode_one(bytes, start, end) {
        Ok(x) => Ok(x),
        Err(e) => Err(AmazonKfxError::Ion(e)),
    }
}

/// Decodes `[start, end)`, retrying from `retry_start` in `Recovery` mode.
pub fn decode_recovering(bytes: &[u8], start: usize, retry_start: usize, end: usize, mode: ParseMode) -> (r: Result<(IonValue, usize), AmazonKfxError>)
    requires
        end <= bytes@.len(),
    ensures
        decoded_view(r) == decode_recovering_spec(bytes@, start as int, retry_start as int, end as int, mode),
{
    match decode_one(bytes, start, end) {
        Ok(x) => Ok(x),
        Err(e) => recover_ion(bytes, retry_start, end, mode, e),
    }
}

/// Whether an entity payload is raw media rather than Ion.
pub open spec fn is_raw_payload_spec(type_id: u32, p: Seq<u8>) -> bool {
    type_id == 0x1a1 || type_id == 0x1a2 || (p.len() >= 2 && p[0] == 0xff && p[1] == 0xd8) || (
    p.len() >= 4 && p[0] == 0x89 && p[1] == 0x50 && p[2] == 0x4e && p[3] == 0x47) || (p.len() >= 4
        && p[0] == 0x47 && p[1] == 0x49 && p[2] == 0x46 && p[3] == 0x38)
}

/// Whether an entity payload is raw media (by type id or JPEG/PNG/GIF
/// signature) rather than Ion.
pub fn is_raw_payload(type_id: u32, payload: &[u8]) -> (r: bool)
    ensures
        r == is_raw_payload_spec(type_id, payload@),
{
    type_id == 0x1a1 || type_id == 0x1a2 || (payload.len() >= 2 && payload[0] == 0xff && payload[1]
        == 0xd8) || (payload.len() >= 4 && payload[0] == 0x89 && payload[1] == 0x50 && payload[2]
        == 0x4e && payload[3] == 0x47) || (payload.len() >= 4 && payload[0] == 0x47 && payload[1]
        == 0x49 && payload[2] == 0x46 && payload[3] == 0x38)
}

/// One entity of a container: an Ion payload, a raw media payload, or (for
/// protected content) neither.
#[derive(Debug)]
pub struct NativeEntity {
    pub id: u32,
    pub type_id: u32,
    pub payload: Option<IonValue>,
    pub raw_payload: Option<Vec<u8>>,
    pub info: IonValue,
    pub drm_scheme: i64,
}

pub struct EntityView {
    pub id: u32,
    pub type_id: u32,
    pub payload: Option<IonModel>,
    pub raw_payload: Option<Seq<u8>>,
    pub info: IonModel,
    pub drm_scheme: i64,
}

impl View for NativeEntity {
    type V = EntityView;

    open spec fn view(&self) -> EntityView {
        EntityView {
            id: self.id,
            type_id: self.type_id,
            payload: match self.payload {
                Some(v) => Some(v@),
                None => None,
            },
            raw_payload: match self.raw_payload {
                Some(v) => Some(v@),
                None => None,
            },
            info: self.info@,
            drm_scheme: self.drm_scheme,
        }
    }
}

/// An integer field of an entity or container info struct, 0 when absent.
pub open spec fn int_field_or_zero(m: IonModel, id: u64) -> i64 {
    match int_field(m, id) {
        Some(v) => v,
        None => 0,
    }
}

/// The entity in `[start, end)`.
#[verifier::opaque]
pub open spec fn entity_spec(
    b: Seq<u8>,
    start: int,
    end: int,
    id: u32,
    type_id: u32,
    mode: ParseMode,
    container_is_protected: bool,
) -> Result<EntityView, KfxErrorView> {
    if start + 10 > usize::MAX || start + 10 > b.len() {
        Err(KfxErrorView::Truncated(start))
    } else if !has_enty_signature(b, start) {
        Err(KfxErrorView::InvalidEntity(id, "missing ENTY signature"@))
    } else if le16(b, start + 4) != 1 {
        Err(
            KfxErrorView::InvalidEntity(
                id,
                "unsupported ENTY version "@ + decimal(le16(b, start + 4) as nat),
            ),
        )
    } else {
        let header_len = le32(b, start + 6) as int;
        if header_len < 10 || start + header_len > usize::MAX || start + header_len > end {
            Err(KfxErrorView::InvalidEntity(id, "ENTY header range is invalid"@))
        } else {
            match decode_recovering_spec(b, start + 10, start + 10, start + header_len, mode) {
                Err(e) => Err(e),
                Ok((info, _)) => if struct_fields_of(info) is None {
                    Err(KfxErrorView::InvalidEntity(id, "ENTY info is not a struct"@))
                } else {
                    let compression = int_field_or_zero(info, FIELD_COMPRESSION);
                    let drm_scheme = int_field_or_zero(info, FIELD_DRM_SCHEME);
                    if compression != 0 && !container_is_protected && drm_scheme == 0 {
                        Err(
                            KfxErrorView::InvalidEntity(
                                id,
                                "unsupported compression scheme "@ + signed_decimal(
                                    compression as int,
                                ),
                            ),
                        )
                    } else {
                        let payload_start = start + if header_len >= 21 {
                            header_len
                        } else {
                            10
                        };
                        if payload_start > end {
                            Err(KfxErrorView::Truncated(payload_start))
                        } else {
                            let payload = b.subrange(payload_start, end);
                            if container_is_protected || drm_scheme != 0 {
                                Ok(
                                    EntityView {
                                        id,
                                        type_id,
                                        payload: None,
                                        raw_payload: None,
                                        info,
                                        drm_scheme: if drm_scheme == 0 {
                                            1
                                        } else {
                                            drm_scheme
                                        },
                                    },
                                )
                            } else if is_raw_payload_spec(type_id, payload) {
                                Ok(
                                    EntityView {
                                        id,
                                        type_id,
                                        payload: None,
                                        raw_payload: Some(payload),
                                        info,
                                        drm_scheme,
                                    },
                                )
                            } else {
                                let ion_start = if payload.len() >= 4 && payload[0] == 0xe0
                                    && payload[1] == 0x01 && payload[2] == 0x00 && payload[3]
                                    == 0xea {
                                    payload_start + 4
                                } else {
                                    payload_start
                                };
                                match decode_recovering_spec(b, ion_start, ion_start, end, mode) {
                                    Ok((v, _)) => Ok(
                                        EntityView {
                                            id,
                                            type_id,
                                            payload: Some(v),
                                            raw_payload: None,
                                            info,
                                            drm_scheme,
                                        },
                                    ),
                                    Err(e) => Err(KfxErrorView::InvalidEntity(id, error_text(e))),
                                }
                            }
                        }
                    }
                },
            }
        }
    }
}

pub open spec fn entity_result_view(r: Result<NativeEntity, AmazonKfxError>) -> Result<EntityView, KfxErrorView> {
    match r {
        Ok(e) => Ok(e@),
        Err(e) => Err(e@),
    }
}

/// An integer field of a struct value, 0 when absent.
pub fn int_field_or_zero_of(value: &IonValue, id: u64) -> (r: i64)
    ensures
        r == int_field_or_zero(value@, id),
{
    match struct_get(value, id) {
        Some(v) => match as_int(v) {
            Some(i) => i,
            None => 0,
        },
        None => 0,
    }
}

/// Parses the entity stored in `[start, end)`.
pub fn parse_entity(
    bytes: &[u8],
    start: usize,
    end: usize,
    id: u32,
    type_id: u32,
    mode: ParseMode,
    container_is_protected: bool,
) -> (r: Result<NativeEntity, AmazonKfxError>)
    requires
        end <= bytes@.len(),
    ensures
        entity_result_view(r) == entity_spec(
            bytes@,
            start as int,
            end as int,
            id,
            type_id,
            mode,
            container_is_protected,
        ),
{
    reveal(entity_spec);
    if start > usize::MAX - ENTY_HEADER_MIN || start + ENTY_HEADER_MIN > bytes.len() {
        return Err(AmazonKfxError::Truncated(start));
    }
    if !(bytes[start] == 0x45 && bytes[start + 1] == 0x4e && bytes[start + 2] == 0x54 && bytes[start
        + 3] == 0x59) {
        return Err(AmazonKfxError::InvalidEntity(id, owned("missing ENTY signature")));
    }
    let version = read_u16(bytes, start + 4).unwrap();
    if version != 1 {
        let d = decimal_string(version as u64);
        return Err(AmazonKfxError::InvalidEntity(id, join2("unsupported ENTY version ", d.as_str())));
    }
    let header_len = read_u32(bytes, start + 6).unwrap() as usize;
    if header_len < ENTY_HEADER_MIN || start > usize::MAX - header_len || start + header_len > end {
        return Err(AmazonKfxError::InvalidEntity(id, owned("ENTY header range is invalid")));
    }
    let (info, _) = decode_recovering(
        bytes,
        start + ENTY_HEADER_MIN,
        start + ENTY_HEADER_MIN,
        start + header_len,
        mode,
    )?;
    entity_after_info(bytes, start, end, id, type_id, container_is_protected, info, header_len, mode)
}


/// The rest of [`parse_entity`] once the entity info has been decoded.
fn entity_after_info(
    bytes: &[u8],
    start: usize,
    end: usize,
    id: u32,
    type_id: u32,
    container_is_protected: bool,
    info: IonValue,
    header_len: usize,
    mode: ParseMode,
) -> (r: Result<NativeEntity, AmazonKfxError>)
    requires
        end <= bytes@.len(),
        start + 10 <= bytes@.len(),
        has_enty_signature(bytes@, start as int),
        le16(bytes@, start + 4) == 1,
        header_len == le32(bytes@, start + 6),
        10 <= header_len,
        start + header_len <= end,
        decode_recovering_spec(bytes@, start + 10, start + 10, start + header_len, mode) matches Ok((m, _)) && m == info@,
    ensures
        entity_result_view(r) == entity_spec(
            bytes@,
            start as int,
            end as int,
            id,
            type_id,
            mode,
            container_is_protected,
        ),
{
    reveal(entity_spec);
    if unwrap_struct(&info).is_none() {
        return Err(AmazonKfxError::InvalidEntity(id, owned("ENTY info is not a struct")));
    }
    let compression = int_field_or_zero_of(&info, FIELD_COMPRESSION);
    let drm_scheme = int_field_or_zero_of(&info, FIELD_DRM_SCHEME);
    if compression != 0 && !container_is_protected && drm_scheme == 0 {
        let d = signed_decimal_string(compression);
        return Err(
            AmazonKfxError::InvalidEntity(id, join2("unsupported compression scheme ", d.as_str())),
        );
    }
    let payload_start = start + if header_len >= ENTY_HEADER_LEN {
        header_len
    } else {
        ENTY_HEADER_MIN
    };
    if payload_start > end {
        return Err(AmazonKfxError::Truncated(payload_start));
    }
    let payload = slice_subrange(bytes, payload_start, end);
    if container_is_protected || drm_scheme != 0 {
        return Ok(
            NativeEntity {
                id,
                type_id,
                payload: None,
                raw_payload: None,
                info,
                drm_scheme: if drm_scheme == 0 {
                    1
                } else {
                    drm_scheme
                },
            },
        );
    }
    if is_raw_payload(type_id, payload) {
        return Ok(
            NativeEntity {
                id,
                type_id,
                payload: None,
                raw_payload: Some(slice_to_vec(payload)),
                info,
                drm_scheme,
            },
        );
    }
    let ion_start = if payload.len() >= 4 && payload[0] == 0xe0 && payload[1] == 0x01 && payload[2]
        == 0x00 && payload[3] == 0xea {
        payload_start + 4
    } else {
        payload_start
    };
    match decode_recovering(bytes, ion_start, ion_start, end, mode) {
        Ok((value, _)) => Ok(
            NativeEntity { id, type_id, payload: Some(value), raw_payload: None, info, drm_scheme },
        ),
        Err(error) => Err(AmazonKfxError::InvalidEntity(id, error.message())),
    }
}


/// A field decoded as a non-negative integer, as `required_u64` reads it.
pub open spec fn field_u64(fields: Seq<(u64, IonModel)>, id: u64) -> Option<u64> {
    match first_field(fields, id) {
        Some(v) => match int_of(v) {
            Some(i) => if i >= 0 {
                Some(i as u64)
            } else {
                None
            },
            None => None,
        },
        None => None,
    }
}

/// A required non-negative integer field of a container-info struct.
pub fn required_u64(fields: &[(u64, IonValue)], id: u64) -> (r: Result<u64, AmazonKfxError>)
    ensures
        match r {
            Ok(v) => field_u64(field_models(fields@), id) == Some(v),
            Err(e) => field_u64(field_models(fields@), id) is None && e@ == KfxErrorView::InvalidHeader(
                "missing numeric field $"@ + decimal(id as nat),
            ),
        },
{
    match struct_get_from_fields(fields, id) {
        Some(v) => match as_int(v) {
            Some(i) => if i >= 0 {
                return Ok(i as u64);
            },
            None => {},
        },
        None => {},
    }
    let d = decimal_string(id);
    Err(AmazonKfxError::InvalidHeader(join2("missing numeric field $", d.as_str())))
}

/// An offset or length field that converts to `usize` (present, an
/// integer, and not negative).
pub open spec fn field_usize(fields: Seq<(u64, IonModel)>, id: u64) -> Option<usize> {
    match first_field(fields, id) {
        Some(v) => match int_of(v) {
            Some(i) => if 0 <= i <= usize::MAX {
                Some(i as usize)
            } else {
                None
            },
            None => None,
        },
        None => None,
    }
}

fn field_as_usize(fields: &[(u64, IonValue)], id: u64) -> (r: Option<usize>)
    ensures
        r == field_usize(field_models(fields@), id),
{
    match struct_get_from_fields(fields, id) {
        Some(v) => match as_int(v) {
            Some(i) => if i >= 0 && (i as u64) <= (usize::MAX as u64) {
                Some(i as usize)
            } else {
                None
            },
            None => None,
        },
        None => None,
    }
}

pub open spec fn max(a: int, b: int) -> int {
    if a >= b {
        a
    } else {
        b
    }
}

/// Where entity `index` of an index table at `index_start` lies:
/// `Ok((entity_start, entity_end))`, or the error for an offset or length
/// that overflows.
pub open spec fn entity_range_spec(
    b: Seq<u8>,
    start: int,
    header_len: int,
    entry: int,
) -> Result<(int, int), KfxErrorView> {
    let rel = le64(b, entry + 8);
    let len = le64(b, entry + 16);
    if start + header_len > usize::MAX || rel > usize::MAX || start + header_len + rel > usize::MAX {
        Err(KfxErrorView::Truncated(entry + 8))
    } else if len > usize::MAX || start + header_len + rel + len > usize::MAX {
        Err(KfxErrorView::Truncated(entry + 16))
    } else {
        Ok((start + header_len + rel, start + header_len + rel + len))
    }
}

/// Reads the offset and length of the index entry at `entry`.
fn entity_range(bytes: &[u8], start: usize, header_len: usize, entry: usize) -> (r: Result<(usize, usize), AmazonKfxError>)
    requires
        entry + 24 <= bytes@.len(),
    ensures
        match r {
            Ok((s, e)) => entity_range_spec(bytes@, start as int, header_len as int, entry as int)
                == Ok::<(int, int), KfxErrorView>((s as int, e as int)),
            Err(e) => entity_range_spec(bytes@, start as int, header_len as int, entry as int)
                == Err::<(int, int), KfxErrorView>(e@),
        },
{
    let n = bytes.len();
    let rel = read_u64(bytes, entry + 8).unwrap();
    let len = read_u64(bytes, entry + 16).unwrap();
    if start > usize::MAX - header_len || rel > usize::MAX as u64 || (start + header_len) > usize::MAX
        - (rel as usize) {
        return Err(AmazonKfxError::Truncated(entry + 8));
    }
    let entity_start = start + header_len + rel as usize;
    if len > usize::MAX as u64 || entity_start > usize::MAX - (len as usize) {
        return Err(AmazonKfxError::Truncated(entry + 16));
    }
    Ok((entity_start, entity_start + len as usize))
}

/// The end of the entity ranges after `index` entries have been seen, or
/// the first error.
pub open spec fn entities_end_spec(
    b: Seq<u8>,
    start: int,
    header_len: int,
    index_start: int,
    count: int,
    acc: int,
) -> Result<int, KfxErrorView>
    decreases count,
{
    if count <= 0 {
        Ok(acc)
    } else {
        match entities_end_spec(b, start, header_len, index_start, count - 1, acc) {
            Err(e) => Err(e),
            Ok(end) => {
                let entry = index_start + (count - 1) * 24;
                match entity_range_spec(b, start, header_len, entry) {
                    Err(e) => Err(e),
                    Ok((es, ee)) => if ee > b.len() {
                        Err(
                            KfxErrorView::InvalidEntityIndex(
                                "entity range "@ + decimal(es as nat) + ".."@ + decimal(ee as nat)
                                    + " exceeds input length "@ + decimal(b.len()),
                            ),
                        )
                    } else {
                        Ok(max(end, ee))
                    },
                }
            },
        }
    }
}

/// The end of an optional `[offset, offset + length)` range named by two
/// container-info fields.
pub open spec fn optional_range_end(
    b: Seq<u8>,
    start: int,
    fields: Seq<(u64, IonModel)>,
    offset_id: u64,
    length_id: u64,
    acc: int,
) -> Result<int, KfxErrorView> {
    match field_usize(fields, offset_id) {
        None => Ok(acc),
        Some(offset) => match field_usize(fields, length_id) {
            None => Ok(acc),
            Some(length) => match slice_end_spec(start, offset as int, length as int, b.len() as int) {
                Err(e) => Err(e),
                Ok(e) => Ok(max(acc, e as int)),
            },
        },
    }
}

/// The end of everything a container references: its header, info, index,
/// entities, and optional symbol and capability ranges.
pub open spec fn container_end_spec(
    b: Seq<u8>,
    start: int,
    header: ContainerHeader,
    fields: Seq<(u64, IonModel)>,
    index_start: int,
    entity_count: int,
    index_end: int,
) -> Result<int, KfxErrorView> {
    if start + header.header_len > usize::MAX {
        Err(KfxErrorView::Truncated(start))
    } else {
        match slice_end_spec(
            start,
            header.info_offset as int,
            header.info_length as int,
            b.len() as int,
        ) {
            Err(e) => Err(e),
            Ok(info_end) => {
                let base = max(max(start + header.header_len, info_end as int), index_end);
                match entities_end_spec(
                    b,
                    start,
                    header.header_len as int,
                    index_start,
                    entity_count,
                    base,
                ) {
                    Err(e) => Err(e),
                    Ok(end) => match optional_range_end(
                        b,
                        start,
                        fields,
                        FIELD_DOC_SYMBOL_OFFSET,
                        FIELD_DOC_SYMBOL_LENGTH,
                        end,
                    ) {
                        Err(e) => Err(e),
                        Ok(end2) => optional_range_end(
                            b,
                            start,
                            fields,
                            FIELD_CAPABILITIES_OFFSET,
                            FIELD_CAPABILITIES_LENGTH,
                            end2,
                        ),
                    },
                }
            },
        }
    }
}

/// A failure in the first `k` index entries is the failure of all of them.
pub proof fn lemma_entities_end_err(
    b: Seq<u8>,
    start: int,
    header_len: int,
    index_start: int,
    k: int,
    m: int,
    acc: int,
)
    requires
        0 < k <= m,
        entities_end_spec(b, start, header_len, index_start, k, acc) is Err,
    ensures
        entities_end_spec(b, start, header_len, index_start, m, acc) == entities_end_spec(
            b,
            start,
            header_len,
            index_start,
            k,
            acc,
        ),
    decreases m - k,
{
    if m > k {
        lemma_entities_end_err(b, start, header_len, index_start, k, m - 1, acc);
    }
}

/// `head` + decimal(a) + ".." + decimal(b) + `tail` + decimal(c).
pub fn range_message(head: &str, a: usize, b: usize, tail: &str, c: usize) -> (r: String)
    ensures
        r@ == head@ + decimal(a as nat) + ".."@ + decimal(b as nat) + tail@ + decimal(c as nat),
{
    let da = decimal_string(a as u64);
    let db = decimal_string(b as u64);
    let dc = decimal_string(c as u64);
    let m1 = join2(head, da.as_str());
    let m2 = join2(m1.as_str(), "..");
    let m3 = join2(m2.as_str(), db.as_str());
    let m4 = join2(m3.as_str(), tail);
    let m5 = join2(m4.as_str(), dc.as_str());
    m5
}

/// The end of a container: the furthest byte that its header, info, index,
/// entities, document symbols, or capabilities reach.
pub fn entity_container_end(
    bytes: &[u8],
    start: usize,
    header: &ContainerHeader,
    fields: &[(u64, IonValue)],
    index_start: usize,
    entity_count: usize,
    index_end: usize,
) -> (r: Result<usize, AmazonKfxError>)
    requires
        index_start + entity_count * 24 <= index_end <= bytes@.len(),
    ensures
        match r {
            Ok(e) => container_end_spec(
                bytes@,
                start as int,
                *header,
                field_models(fields@),
                index_start as int,
                entity_count as int,
                index_end as int,
            ) == Ok::<int, KfxErrorView>(e as int),
            Err(e) => container_end_spec(
                bytes@,
                start as int,
                *header,
                field_models(fields@),
                index_start as int,
                entity_count as int,
                index_end as int,
            ) == Err::<int, KfxErrorView>(e@),
        },
{
    if start > usize::MAX - header.header_len {
        return Err(AmazonKfxError::Truncated(start));
    }
    let info_end = checked_slice_end(start, header.info_offset, header.info_length, bytes.len())?;
    let mut end = start + header.header_len;
    if info_end > end {
        end = info_end;
    }
    if index_end > end {
        end = index_end;
    }
    let mut index: usize = 0;
    while index < entity_count
        invariant
            index <= entity_count,
            index_start + entity_count * 24 <= index_end <= bytes@.len(),
            start + header.header_len <= usize::MAX,
            slice_end_spec(start as int, header.info_offset as int, header.info_length as int, bytes@.len() as int) == Ok::<usize, KfxErrorView>(info_end),
            entities_end_spec(
                bytes@,
                start as int,
                header.header_len as int,
                index_start as int,
                index as int,
                max(max(start + header.header_len, info_end as int), index_end as int),
            ) == Ok::<int, KfxErrorView>(end as int),
        decreases entity_count - index,
    {
        assert(index_start + index * 24 + 24 <= index_start + entity_count * 24) by (nonlinear_arith)
            requires index < entity_count;
        let entry = index_start + index * ENTITY_INDEX_ENTRY;
        let (entity_start, entity_end) = match entity_range(bytes, start, header.header_len, entry) {
            Ok(range) => range,
            Err(e) => {
                proof {
                    lemma_entities_end_err(bytes@, start as int, header.header_len as int, index_start as int, index + 1, entity_count as int, max(max(start + header.header_len, info_end as int), index_end as int));
                }
                return Err(e);
            },
        };
        if entity_end > bytes.len() {
            proof {
                lemma_entities_end_err(bytes@, start as int, header.header_len as int, index_start as int, index + 1, entity_count as int, max(max(start + header.header_len, info_end as int), index_end as int));
            }
            let m = range_message("entity range ", entity_start, entity_end, " exceeds input length ", bytes.len());
            return Err(AmazonKfxError::InvalidEntityIndex(m));
        }
        if entity_end > end {
            end = entity_end;
        }
        index = index + 1;
    }
    match field_as_usize(fields, FIELD_DOC_SYMBOL_OFFSET) {
        Some(offset) => match field_as_usize(fields, FIELD_DOC_SYMBOL_LENGTH) {
            Some(length) => {
                let e = checked_slice_end(start, offset, length, bytes.len())?;
                if e > end {
                    end = e;
                }
            },
            None => {},
        },
        None => {},
    }
    match field_as_usize(fields, FIELD_CAPABILITIES_OFFSET) {
        Some(offset) => match field_as_usize(fields, FIELD_CAPABILITIES_LENGTH) {
            Some(length) => {
                let e = checked_slice_end(start, offset, length, bytes.len())?;
                if e > end {
                    end = e;
                }
            },
            None => {},
        },
        None => {},
    }
    Ok(end)
}


/// Nothing decodes at or past the end of a range.
pub proof fn lemma_decode_past_end(b: Seq<u8>, p: int, end: int)
    requires
        p >= end,
    ensures
        decode_one_spec(b, p, end) == Err::<(IonModel, int), IonError>(IonError::UnexpectedEnd),
{
    assert(crate::ion::skip_version_markers(b, p, end) == p);
}

/// An optional Ion value stored at `[offset, offset + length)` of a
/// container, named by two container-info fields.
pub open spec fn optional_ion_spec(
    b: Seq<u8>,
    base: usize,
    fields: Seq<(u64, IonModel)>,
    offset_id: u64,
    length_id: u64,
    mode: ParseMode,
) -> Result<Option<IonModel>, KfxErrorView> {
    match first_field(fields, offset_id) {
        None => Ok(None),
        Some(ov) => match int_of(ov) {
            None => Ok(None),
            Some(offset) => match first_field(fields, length_id) {
                None => Ok(None),
                Some(lv) => match int_of(lv) {
                    None => Ok(None),
                    Some(length) => if offset < 0 || offset > usize::MAX {
                        Err(KfxErrorView::Truncated(base as int))
                    } else if length < 0 || length > usize::MAX {
                        Err(KfxErrorView::Truncated(base.wrapping_add(offset as usize) as int))
                    } else {
                        match slice_end_spec(base as int, offset as int, length as int, b.len() as int) {
                            Err(e) => Err(e),
                            Ok(end) => match decode_recovering_spec(
                                b,
                                base + offset + 4,
                                base + offset,
                                end as int,
                                mode,
                            ) {
                                Ok((v, _)) => Ok(Some(v)),
                                Err(e) => Err(e),
                            },
                        }
                    },
                },
            },
        },
    }
}

pub open spec fn opt_value_view(r: Result<Option<IonValue>, AmazonKfxError>) -> Result<Option<IonModel>, KfxErrorView> {
    match r {
        Ok(Some(v)) => Ok(Some(v@)),
        Ok(None) => Ok(None),
        Err(e) => Err(e@),
    }
}

/// Decodes an optional Ion value stored at `[offset, offset + length)` of a
/// container (document symbols, format capabilities).
pub fn optional_ion_range(
    bytes: &[u8],
    base: usize,
    fields: &[(u64, IonValue)],
    offset_id: u64,
    length_id: u64,
    mode: ParseMode,
) -> (r: Result<Option<IonValue>, AmazonKfxError>)
    ensures
        opt_value_view(r) == optional_ion_spec(bytes@, base, field_models(fields@), offset_id, length_id, mode),
{
    let offset = match struct_get_from_fields(fields, offset_id) {
        None => {
            return Ok(None);
        },
        Some(v) => match as_int(v) {
            None => {
                return Ok(None);
            },
            Some(i) => i,
        },
    };
    let length = match struct_get_from_fields(fields, length_id) {
        None => {
            return Ok(None);
        },
        Some(v) => match as_int(v) {
            None => {
                return Ok(None);
            },
            Some(i) => i,
        },
    };
    if offset < 0 || (offset as u64) > (usize::MAX as u64) {
        return Err(AmazonKfxError::Truncated(base));
    }
    let offset = offset as usize;
    if length < 0 || (length as u64) > (usize::MAX as u64) {
        return Err(AmazonKfxError::Truncated(base.wrapping_add(offset)));
    }
    let length = length as usize;
    let end = checked_slice_end(base, offset, length, bytes.len())?;
    let first = if base + offset <= usize::MAX - 4 {
        base + offset + 4
    } else {
        usize::MAX
    };
    proof {
        if base + offset > usize::MAX - 4 {
            lemma_decode_past_end(bytes@, first as int, end as int);
            lemma_decode_past_end(bytes@, base + offset + 4, end as int);
        }
    }
    match decode_recovering(bytes, first, base + offset, end, mode) {
        Ok((value, _)) => Ok(Some(value)),
        Err(e) => Err(e),
    }
}


/// The entities of the first `count` index entries, or the first error.
pub open spec fn entities_spec(
    b: Seq<u8>,
    start: int,
    header_len: int,
    index_start: int,
    container_end: int,
    mode: ParseMode,
    protected: bool,
    count: int,
) -> Result<Seq<EntityView>, KfxErrorView>
    decreases count,
{
    if count <= 0 {
        Ok(Seq::empty())
    } else {
        match entities_spec(b, start, header_len, index_start, container_end, mode, protected, count - 1) {
            Err(e) => Err(e),
            Ok(prev) => {
                let entry = index_start + (count - 1) * 24;
                let id = le32(b, entry);
                let type_id = le32(b, entry + 4);
                match entity_range_spec(b, start, header_len, entry) {
                    Err(e) => Err(e),
                    Ok((es, ee)) => if ee > b.len() || ee > container_end {
                        Err(
                            KfxErrorView::InvalidEntity(
                                id,
                                "range "@ + decimal(es as nat) + ".."@ + decimal(ee as nat)
                                    + " exceeds container end "@ + decimal(container_end as nat),
                            ),
                        )
                    } else {
                        match entity_spec(b, es, ee, id, type_id, mode, protected) {
                            Err(e) => Err(e),
                            Ok(ev) => Ok(prev.push(ev)),
                        }
                    },
                }
            },
        }
    }
}

pub proof fn lemma_entities_err(
    b: Seq<u8>,
    start: int,
    header_len: int,
    index_start: int,
    container_end: int,
    mode: ParseMode,
    protected: bool,
    k: int,
    m: int,
)
    requires
        0 < k <= m,
        entities_spec(b, start, header_len, index_start, container_end, mode, protected, k) is Err,
    ensures
        entities_spec(b, start, header_len, index_start, container_end, mode, protected, m)
            == entities_spec(b, start, header_len, index_start, container_end, mode, protected, k),
    decreases m - k,
{
    if m > k {
        lemma_entities_err(b, start, header_len, index_start, container_end, mode, protected, k, m - 1);
    }
}

pub open spec fn entity_views(s: Seq<NativeEntity>) -> Seq<EntityView> {
    s.map_values(|e: NativeEntity| e@)
}

/// Parses the entities listed by the index table at `index_start`.
fn parse_entities(
    bytes: &[u8],
    start: usize,
    header_len: usize,
    index_start: usize,
    entity_count: usize,
    container_end: usize,
    mode: ParseMode,
    protected: bool,
) -> (r: Result<Vec<NativeEntity>, AmazonKfxError>)
    requires
        index_start + entity_count * 24 <= bytes@.len(),
    ensures
        match r {
            Ok(v) => entities_spec(bytes@, start as int, header_len as int, index_start as int, container_end as int, mode, protected, entity_count as int)
                == Ok::<Seq<EntityView>, KfxErrorView>(entity_views(v@)),
            Err(e) => entities_spec(bytes@, start as int, header_len as int, index_start as int, container_end as int, mode, protected, entity_count as int)
                == Err::<Seq<EntityView>, KfxErrorView>(e@),
        },
{
    let mut entities: Vec<NativeEntity> = Vec::new();
    let mut index: usize = 0;
    let n = bytes.len();
    assert(entity_views(entities@) =~= Seq::<EntityView>::empty());
    while index < entity_count
        invariant
            index <= entity_count,
            n == bytes@.len(),
            index_start + entity_count * 24 <= bytes@.len(),
            entities_spec(bytes@, start as int, header_len as int, index_start as int, container_end as int, mode, protected, index as int)
                == Ok::<Seq<EntityView>, KfxErrorView>(entity_views(entities@)),
        decreases entity_count - index,
    {
        assert(index_start + index * 24 + 24 <= index_start + entity_count * 24) by (nonlinear_arith)
            requires index < entity_count;
        let entry = index_start + index * ENTITY_INDEX_ENTRY;
        let id = read_u32(bytes, entry).unwrap();
        let type_id = read_u32(bytes, entry + 4).unwrap();
        let (entity_start, entity_end) = match entity_range(bytes, start, header_len, entry) {
            Ok(range) => range,
            Err(e) => {
                proof {
                    lemma_entities_err(bytes@, start as int, header_len as int, index_start as int, container_end as int, mode, protected, index + 1, entity_count as int);
                }
                return Err(e);
            },
        };
        if entity_end > bytes.len() || entity_end > container_end {
            proof {
                lemma_entities_err(bytes@, start as int, header_len as int, index_start as int, container_end as int, mode, protected, index + 1, entity_count as int);
            }
            let m = range_message("range ", entity_start, entity_end, " exceeds container end ", container_end);
            return Err(AmazonKfxError::InvalidEntity(id, m));
        }
        match parse_entity(bytes, entity_start, entity_end, id, type_id, mode, protected) {
            Ok(entity) => {
                let ghost before = entities@;
                entities.push(entity);
                assert(entity_views(entities@) =~= entity_views(before).push(entity@));
            },
            Err(e) => {
                proof {
                    lemma_entities_err(bytes@, start as int, header_len as int, index_start as int, container_end as int, mode, protected, index + 1, entity_count as int);
                }
                return Err(e);
            },
        }
        index = index + 1;
    }
    Ok(entities)
}


/// A parsed `CONT` container.
#[derive(Debug)]
pub struct NativeContainer {
    pub header: ContainerHeader,
    pub info: IonValue,
    pub doc_symbols: Option<IonValue>,
    pub capabilities: Option<IonValue>,
    pub entities: Vec<NativeEntity>,
    pub kfxgen_info: Vec<u8>,
}

pub struct ContainerView {
    pub header: ContainerHeader,
    pub info: IonModel,
    pub doc_symbols: Option<IonModel>,
    pub capabilities: Option<IonModel>,
    pub entities: Seq<EntityView>,
    pub kfxgen_info: Seq<u8>,
}

pub open spec fn opt_ion_view(v: Option<IonValue>) -> Option<IonModel> {
    match v {
        Some(x) => Some(x@),
        None => None,
    }
}

impl View for NativeContainer {
    type V = ContainerView;

    open spec fn view(&self) -> ContainerView {
        ContainerView {
            header: self.header,
            info: self.info@,
            doc_symbols: opt_ion_view(self.doc_symbols),
            capabilities: opt_ion_view(self.capabilities),
            entities: entity_views(self.entities@),
            kfxgen_info: self.kfxgen_info@,
        }
    }
}

/// Whether a container-info struct declares DRM.
pub open spec fn info_is_protected(fields: Seq<(u64, IonModel)>) -> bool {
    match first_field(fields, FIELD_DRM_SCHEME) {
        Some(v) => match int_of(v) {
            Some(i) => i != 0,
            None => false,
        },
        None => false,
    }
}

/// The index table of a container, after its info struct has been read:
/// `(index_start, entity_count, index_end)`.
pub open spec fn index_spec(
    b: Seq<u8>,
    start: int,
    fields: Seq<(u64, IonModel)>,
) -> Result<(int, int, int), KfxErrorView> {
    match field_u64(fields, FIELD_INDEX_OFFSET) {
        None => Err(KfxErrorView::InvalidHeader("missing numeric field $"@ + decimal(413))),
        Some(index_offset) => match field_u64(fields, FIELD_INDEX_LENGTH) {
            None => Err(KfxErrorView::InvalidHeader("missing numeric field $"@ + decimal(414))),
            Some(index_length) => {
                let io = (index_offset as usize) as int;
                let il = (index_length as usize) as int;
                if start + io > usize::MAX {
                    Err(KfxErrorView::InvalidEntityIndex("index offset overflow"@))
                } else if start + io + il > usize::MAX {
                    Err(KfxErrorView::InvalidEntityIndex("index length overflow"@))
                } else if start + io + il > b.len() {
                    Err(
                        KfxErrorView::InvalidEntityIndex(
                            "index range "@ + decimal((start + io) as nat) + ".."@ + decimal(
                                (start + io + il) as nat,
                            ) + " exceeds input length "@ + decimal(b.len()),
                        ),
                    )
                } else if il % 24 != 0 {
                    Err(KfxErrorView::InvalidEntityIndex("index length is not a multiple of 24"@))
                } else if il / 24 > 1_000_000 {
                    Err(KfxErrorView::InvalidEntityIndex("entity count limit exceeded"@))
                } else {
                    Ok((start + io, il / 24, start + io + il))
                }
            },
        },
    }
}

/// The container that starts at `start`, and the position just after it.
#[verifier::opaque]
pub open spec fn container_spec(b: Seq<u8>, start: int, mode: ParseMode) -> Result<(ContainerView, int), KfxErrorView> {
    match container_header_spec(b, start) {
        Err(e) => Err(e),
        Ok(header) => match slice_end_spec(
            start,
            header.info_offset as int,
            header.info_length as int,
            b.len() as int,
        ) {
            Err(e) => Err(e),
            Ok(info_end) => {
                let info_pos = start + header.info_offset + 4;
                match decode_recovering_spec(b, info_pos, info_pos, info_end as int, mode) {
                    Err(e) => Err(e),
                    Ok((info, _)) => match struct_fields_of(info) {
                        None => Err(KfxErrorView::InvalidHeader("CONT container-info is not a struct"@)),
                        Some(fields) => if first_field(fields, FIELD_CONTAINER_ID) is None {
                            Err(KfxErrorView::InvalidHeader("CONT container-info has no container id"@))
                        } else {
                            match index_spec(b, start, fields) {
                                Err(e) => Err(e),
                                Ok((index_start, count, index_end)) => match container_end_spec(
                                    b,
                                    start,
                                    header,
                                    fields,
                                    index_start,
                                    count,
                                    index_end,
                                ) {
                                    Err(e) => Err(e),
                                    Ok(cend) => match optional_ion_spec(
                                        b,
                                        start as usize,
                                        fields,
                                        FIELD_DOC_SYMBOL_OFFSET,
                                        FIELD_DOC_SYMBOL_LENGTH,
                                        mode,
                                    ) {
                                        Err(e) => Err(e),
                                        Ok(doc_symbols) => match optional_ion_spec(
                                            b,
                                            start as usize,
                                            fields,
                                            FIELD_CAPABILITIES_OFFSET,
                                            FIELD_CAPABILITIES_LENGTH,
                                            mode,
                                        ) {
                                            Err(e) => Err(e),
                                            Ok(capabilities) => match entities_spec(
                                                b,
                                                start,
                                                header.header_len as int,
                                                index_start,
                                                cend,
                                                mode,
                                                info_is_protected(fields),
                                                count,
                                            ) {
                                                Err(e) => Err(e),
                                                Ok(entities) => {
                                                    let kfxgen_end = start + header.header_len;
                                                    if info_end > kfxgen_end || kfxgen_end > b.len() {
                                                        Err(KfxErrorView::Truncated(info_end as int))
                                                    } else {
                                                        Ok(
                                                            (
                                                                ContainerView {
                                                                    header,
                                                                    info,
                                                                    doc_symbols,
                                                                    capabilities,
                                                                    entities,
                                                                    kfxgen_info: b.subrange(
                                                                        info_end as int,
                                                                        kfxgen_end,
                                                                    ),
                                                                },
                                                                cend,
                                                            ),
                                                        )
                                                    }
                                                },
                                            },
                                        },
                                    },
                                },
                            }
                        },
                    },
                }
            },
        },
    }
}

pub open spec fn container_result_view(r: Result<(NativeContainer, usize), AmazonKfxError>) -> Result<(ContainerView, int), KfxErrorView> {
    match r {
        Ok((c, n)) => Ok((c@, n as int)),
        Err(e) => Err(e@),
    }
}

pub proof fn lemma_entities_end_grows(b: Seq<u8>, start: int, header_len: int, index_start: int, count: int, acc: int)
    ensures
        entities_end_spec(b, start, header_len, index_start, count, acc) matches Ok(e) ==> e >= acc,
    decreases count,
{
    if count > 0 {
        lemma_entities_end_grows(b, start, header_len, index_start, count - 1, acc);
    }
}

/// Every container reaches at least to the end of its header, so reading a
/// file container by container always advances.
pub proof fn lemma_container_end_after_header(
    b: Seq<u8>,
    start: int,
    header: ContainerHeader,
    fields: Seq<(u64, IonModel)>,
    index_start: int,
    count: int,
    index_end: int,
)
    ensures
        container_end_spec(b, start, header, fields, index_start, count, index_end) matches Ok(e)
            ==> e >= start + header.header_len,
{
    if start + header.header_len <= usize::MAX {
        match slice_end_spec(start, header.info_offset as int, header.info_length as int, b.len() as int) {
            Ok(info_end) => {
                let base = max(max(start + header.header_len, info_end as int), index_end);
                lemma_entities_end_grows(b, start, header.header_len as int, index_start, count, base);
            },
            Err(_) => {},
        }
    }
}

/// Parses the container that starts at `start` and returns it with the
/// position just after it (the furthest byte it references).
pub fn parse_container(bytes: &[u8], start: usize, mode: ParseMode) -> (r: Result<(NativeContainer, usize), AmazonKfxError>)
    ensures
        container_result_view(r) == container_spec(bytes@, start as int, mode),
        r matches Ok((c, next)) ==> next >= start + 18 && c.header.header_len >= 18,
{
    reveal(container_spec);
    let n = bytes.len();
    let header = read_container_header(bytes, start)?;
    let info_end = checked_slice_end(start, header.info_offset, header.info_length, bytes.len())?;
    let info_pos = if start + header.info_offset <= usize::MAX - 4 {
        start + header.info_offset + 4
    } else {
        usize::MAX
    };
    proof {
        if start + header.info_offset > usize::MAX - 4 {
            lemma_decode_past_end(bytes@, info_pos as int, info_end as int);
            lemma_decode_past_end(bytes@, start + header.info_offset + 4, info_end as int);
        }
    }
    let (info, _) = decode_recovering(bytes, info_pos, info_pos, info_end, mode)?;
    let fields = match unwrap_struct(&info) {
        Some(f) => f,
        None => {
            return Err(
                AmazonKfxError::InvalidHeader(owned("CONT container-info is not a struct")),
            );
        },
    };
    if struct_get_from_fields(fields, FIELD_CONTAINER_ID).is_none() {
        return Err(
            AmazonKfxError::InvalidHeader(owned("CONT container-info has no container id")),
        );
    }
    let container_is_protected = match struct_get_from_fields(fields, FIELD_DRM_SCHEME) {
        Some(v) => match as_int(v) {
            Some(i) => i != 0,
            None => false,
        },
        None => false,
    };
    let index_offset = required_u64(fields, FIELD_INDEX_OFFSET)?;
    let index_length = required_u64(fields, FIELD_INDEX_LENGTH)?;
    let io = index_offset as usize;
    let il = index_length as usize;
    if start > usize::MAX - io {
        return Err(AmazonKfxError::InvalidEntityIndex(owned("index offset overflow")));
    }
    let index_start = start + io;
    if index_start > usize::MAX - il {
        return Err(AmazonKfxError::InvalidEntityIndex(owned("index length overflow")));
    }
    let index_end = index_start + il;
    if index_end > bytes.len() {
        let m = range_message("index range ", index_start, index_end, " exceeds input length ", bytes.len());
        return Err(AmazonKfxError::InvalidEntityIndex(m));
    }
    if il % ENTITY_INDEX_ENTRY != 0 {
        return Err(
            AmazonKfxError::InvalidEntityIndex(owned("index length is not a multiple of 24")),
        );
    }
    let entity_count = il / ENTITY_INDEX_ENTRY;
    if entity_count > MAX_ENTITIES {
        return Err(AmazonKfxError::InvalidEntityIndex(owned("entity count limit exceeded")));
    }
    assert(index_start + entity_count * 24 == index_end);
    let container_end = entity_container_end(
        bytes,
        start,
        &header,
        fields,
        index_start,
        entity_count,
        index_end,
    )?;
    proof {
        lemma_container_end_after_header(bytes@, start as int, header, field_models(fields@), index_start as int, entity_count as int, index_end as int);
    }
    let doc_symbols = optional_ion_range(
        bytes,
        start,
        fields,
        FIELD_DOC_SYMBOL_OFFSET,
        FIELD_DOC_SYMBOL_LENGTH,
        mode,
    )?;
    let capabilities = optional_ion_range(
        bytes,
        start,
        fields,
        FIELD_CAPABILITIES_OFFSET,
        FIELD_CAPABILITIES_LENGTH,
        mode,
    )?;
    let entities = parse_entities(
        bytes,
        start,
        header.header_len,
        index_start,
        entity_count,
        container_end,
        mode,
        container_is_protected,
    )?;
    let kfxgen_end = start + header.header_len;
    if info_end > kfxgen_end || kfxgen_end > bytes.len() {
        return Err(AmazonKfxError::Truncated(info_end));
    }
    let kfxgen_info = slice_to_vec(slice_subrange(bytes, info_end, kfxgen_end));
    let container = NativeContainer { header, info, doc_symbols, capabilities, entities, kfxgen_info };
    Ok((container, container_end))
}

} // verus!
