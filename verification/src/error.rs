//! Parse modes and the errors of the KFX reader.
use vstd::prelude::*;
use crate::ion::IonError;
use crate::text::{decimal, decimal_string, join2, owned, signed_decimal};

verus! {

/// How strictly a KFX input is read.
#[derive(Clone, Copy, Debug, PartialEq, Eq, Structural)]
pub enum ParseMode {
    Strict,
    Compatible,
    Recovery,
}

impl Default for ParseMode {
    fn default() -> (r: Self)
        ensures
            r == ParseMode::Compatible,
    {
        ParseMode::Compatible
    }
}

/// Why a KFX input could not be read.
#[derive(Clone, Debug, PartialEq, Eq)]
pub enum AmazonKfxError {
    Truncated(usize),
    InvalidHeader(String),
    UnsupportedVersion(u16),
    InvalidEntityIndex(String),
    InvalidEntity(u32, String),
    Ion(IonError),
    UnknownSymbol(u64),
    ProtectedContent,
    UnresolvedVisibleResources(usize),
    Semantic(String),
}

/// The mathematical form of an [`AmazonKfxError`].
pub enum KfxErrorView {
    Truncated(int),
    InvalidHeader(Seq<char>),
    UnsupportedVersion(u16),
    InvalidEntityIndex(Seq<char>),
    InvalidEntity(u32, Seq<char>),
    Ion(IonError),
    UnknownSymbol(u64),
    ProtectedContent,
    UnresolvedVisibleResources(int),
    Semantic(Seq<char>),
}

impl View for AmazonKfxError {
    type V = KfxErrorView;

    open spec fn view(&self) -> KfxErrorView {
        match self {
            AmazonKfxError::Truncated(n) => KfxErrorView::Truncated(*n as int),
            AmazonKfxError::InvalidHeader(m) => KfxErrorView::InvalidHeader(m@),
            AmazonKfxError::UnsupportedVersion(v) => KfxErrorView::UnsupportedVersion(*v),
            AmazonKfxError::InvalidEntityIndex(m) => KfxErrorView::InvalidEntityIndex(m@),
            AmazonKfxError::InvalidEntity(id, m) => KfxErrorView::InvalidEntity(*id, m@),
            AmazonKfxError::Ion(e) => KfxErrorView::Ion(*e),
            AmazonKfxError::UnknownSymbol(s) => KfxErrorView::UnknownSymbol(*s),
            AmazonKfxError::ProtectedContent => KfxErrorView::ProtectedContent,
            AmazonKfxError::UnresolvedVisibleResources(n) => KfxErrorView::UnresolvedVisibleResources(
                *n as int,
            ),
            AmazonKfxError::Semantic(m) => KfxErrorView::Semantic(m@),
        }
    }
}

/// The sentence that describes an Ion decoding failure.
pub open spec fn ion_error_text(e: IonError) -> Seq<char> {
    match e {
        IonError::UnexpectedEnd => "a value runs past the end of its range"@,
        IonError::InvalidLength => "a length field is malformed"@,
        IonError::InvalidTypeDescriptor => "a type descriptor is invalid"@,
        IonError::IntegerOverflow => "an integer does not fit"@,
        IonError::InvalidUtf8 => "a string is not valid UTF-8"@,
        IonError::InvalidAnnotation => "an annotation wrapper is malformed"@,
        IonError::InvalidStructField => "a struct field name is malformed"@,
    }
}

/// The sentence that describes an Ion decoding failure.
pub fn ion_error_message(e: IonError) -> (r: String)
    ensures
        r@ == ion_error_text(e),
{
    match e {
        IonError::UnexpectedEnd => owned("a value runs past the end of its range"),
        IonError::InvalidLength => owned("a length field is malformed"),
        IonError::InvalidTypeDescriptor => owned("a type descriptor is invalid"),
        IonError::IntegerOverflow => owned("an integer does not fit"),
        IonError::InvalidUtf8 => owned("a string is not valid UTF-8"),
        IonError::InvalidAnnotation => owned("an annotation wrapper is malformed"),
        IonError::InvalidStructField => owned("a struct field name is malformed"),
    }
}

/// The human-readable message of an error.
pub open spec fn error_text(e: KfxErrorView) -> Seq<char> {
    match e {
        KfxErrorView::Truncated(n) => "Amazon KFX CONT container is truncated at byte "@ + decimal(
            n as nat,
        ),
        KfxErrorView::InvalidHeader(m) => "Amazon KFX CONT header is invalid: "@ + m,
        KfxErrorView::UnsupportedVersion(v) => "Amazon KFX CONT version "@ + decimal(v as nat)
            + " is unsupported"@,
        KfxErrorView::InvalidEntityIndex(m) => "Amazon KFX entity index is invalid: "@ + m,
        KfxErrorView::InvalidEntity(id, m) => "Amazon KFX entity "@ + decimal(id as nat) + " is invalid: "@
            + m,
        KfxErrorView::Ion(e) => "Amazon KFX Ion data is invalid: "@ + ion_error_text(e),
        KfxErrorView::UnknownSymbol(s) => "Amazon KFX symbol "@ + decimal(s as nat)
            + " is not available"@,
        KfxErrorView::ProtectedContent => "Amazon KFX input is protected by DRM"@,
        KfxErrorView::UnresolvedVisibleResources(n) => "KFX input contains unresolved visible resources ("@
            + decimal(n as nat) + " placements)"@,
        KfxErrorView::Semantic(m) => "Amazon KFX semantic decoding failed: "@ + m,
    }
}

impl AmazonKfxError {
    /// The human-readable message of this error.
    pub fn message(&self) -> (r: String)
        ensures
            r@ == error_text(self@),
    {
        match self {
            AmazonKfxError::Truncated(n) => {
                let d = decimal_string(*n as u64);
                join2("Amazon KFX CONT container is truncated at byte ", d.as_str())
            },
            AmazonKfxError::InvalidHeader(m) => join2(
                "Amazon KFX CONT header is invalid: ",
                m.as_str(),
            ),
            AmazonKfxError::UnsupportedVersion(v) => {
                let d = decimal_string(*v as u64);
                let head = join2("Amazon KFX CONT version ", d.as_str());
                join2(head.as_str(), " is unsupported")
            },
            AmazonKfxError::InvalidEntityIndex(m) => join2(
                "Amazon KFX entity index is invalid: ",
                m.as_str(),
            ),
            AmazonKfxError::InvalidEntity(id, m) => {
                let d = decimal_string(*id as u64);
                let head = join2("Amazon KFX entity ", d.as_str());
                let mid = join2(head.as_str(), " is invalid: ");
                join2(mid.as_str(), m.as_str())
            },
            AmazonKfxError::Ion(e) => {
                let text = ion_error_message(*e);
                join2("Amazon KFX Ion data is invalid: ", text.as_str())
            },
            AmazonKfxError::UnknownSymbol(s) => {
                let d = decimal_string(*s);
                let head = join2("Amazon KFX symbol ", d.as_str());
                join2(head.as_str(), " is not available")
            },
            AmazonKfxError::ProtectedContent => owned("Amazon KFX input is protected by DRM"),
            AmazonKfxError::UnresolvedVisibleResources(n) => {
                let d = decimal_string(*n as u64);
                let head = join2("KFX input contains unresolved visible resources (", d.as_str());
                join2(head.as_str(), " placements)")
            },
            AmazonKfxError::Semantic(m) => join2(
                "Amazon KFX semantic decoding failed: ",
                m.as_str(),
            ),
        }
    }
}

/// The stable diagnostic code reported for an error.
pub open spec fn error_code(e: KfxErrorView) -> Seq<char> {
    match e {
        KfxErrorView::Truncated(_) => "KFX_PARSE_TRUNCATED"@,
        KfxErrorView::InvalidHeader(_) => "KFX_PARSE_INVALID_HEADER"@,
        KfxErrorView::UnsupportedVersion(_) => "KFX_PARSE_UNSUPPORTED_VERSION"@,
        KfxErrorView::InvalidEntityIndex(_) => "KFX_PARSE_INVALID_ENTITY_INDEX"@,
        KfxErrorView::InvalidEntity(_, _) => "KFX_PARSE_INVALID_ENTITY"@,
        KfxErrorView::Ion(_) => "KFX_PARSE_INVALID_ION"@,
        KfxErrorView::UnknownSymbol(_) => "KFX_PARSE_UNKNOWN_SYMBOL"@,
        KfxErrorView::ProtectedContent => "KFX_DRM_PROTECTED"@,
        KfxErrorView::UnresolvedVisibleResources(_) => "KFX_UNRESOLVED_VISIBLE_RESOURCES"@,
        KfxErrorView::Semantic(_) => "KFX_SEMANTIC_DECODE_FAILED"@,
    }
}

/// The stable diagnostic code reported for an error.
pub fn fidelity_error_code(error: &AmazonKfxError) -> (r: &'static str)
    ensures
        r@ == error_code(error@),
{
    match error {
        AmazonKfxError::Truncated(_) => "KFX_PARSE_TRUNCATED",
        AmazonKfxError::InvalidHeader(_) => "KFX_PARSE_INVALID_HEADER",
        AmazonKfxError::UnsupportedVersion(_) => "KFX_PARSE_UNSUPPORTED_VERSION",
        AmazonKfxError::InvalidEntityIndex(_) => "KFX_PARSE_INVALID_ENTITY_INDEX",
        AmazonKfxError::InvalidEntity(_, _) => "KFX_PARSE_INVALID_ENTITY",
        AmazonKfxError::Ion(_) => "KFX_PARSE_INVALID_ION",
        AmazonKfxError::UnknownSymbol(_) => "KFX_PARSE_UNKNOWN_SYMBOL",
        AmazonKfxError::ProtectedContent => "KFX_DRM_PROTECTED",
        AmazonKfxError::UnresolvedVisibleResources(_) => "KFX_UNRESOLVED_VISIBLE_RESOURCES",
        AmazonKfxError::Semantic(_) => "KFX_SEMANTIC_DECODE_FAILED",
    }
}

} // verus!
