//! Ion binary values as they occur in KFX fragments, and a decoder for the
//! Ion 1.0 binary encoding.
//!
//! Every value decoded here is described by [`value_at`], a spec function on
//! the input bytes; the executable decoder is proved to return exactly what
//! that function describes.
use vstd::prelude::*;
use vstd::slice::slice_subrange;
use vstd::slice::slice_to_vec;
use vstd::utf8::valid_utf8;
use vstd::utf8::decode_utf8;

verus! {

/// The four bytes of the Ion 1.0 binary version marker.
pub const VERSION_MARKER: [u8; 4] = [0xe0, 0x01, 0x00, 0xea];

/// Why a byte range is not a well-formed Ion binary value.
#[derive(Clone, Copy, Debug, PartialEq, Eq, Structural)]
pub enum IonError {
    /// A value or a length field runs past the end of its range.
    UnexpectedEnd,
    /// A VarUInt length or symbol list is malformed or overflows.
    InvalidLength,
    /// The type descriptor byte is not allowed at this position.
    InvalidTypeDescriptor,
    /// An integer or symbol id does not fit the decoded representation.
    IntegerOverflow,
    /// A string body is not valid UTF-8.
    InvalidUtf8,
    /// An annotation wrapper is malformed.
    InvalidAnnotation,
    /// A struct field name is malformed.
    InvalidStructField,
}

/// A decoded Ion value. Numeric kinds without an integer representation are
/// kept as their raw big-endian body bytes.
#[derive(Debug)]
pub enum IonValue {
    Null,
    Nop,
    Bool(bool),
    Int(i64),
    Float(Vec<u8>),
    Decimal(Vec<u8>),
    Timestamp(Vec<u8>),
    Symbol(u64),
    String(String),
    Clob(Vec<u8>),
    Blob(Vec<u8>),
    List(Vec<IonValue>),
    SExp(Vec<IonValue>),
    Struct(Vec<(u64, IonValue)>),
    Annotation { symbols: Vec<u64>, value: Box<IonValue> },
    Reserved { type_descriptor: u8, bytes: Vec<u8> },
}

/// The mathematical form of an [`IonValue`].
pub enum IonModel {
    Null,
    Nop,
    Bool(bool),
    Int(i64),
    Float(Seq<u8>),
    Decimal(Seq<u8>),
    Timestamp(Seq<u8>),
    Symbol(u64),
    String(Seq<char>),
    Clob(Seq<u8>),
    Blob(Seq<u8>),
    List(Seq<IonModel>),
    SExp(Seq<IonModel>),
    Struct(Seq<(u64, IonModel)>),
    Annotation { symbols: Seq<u64>, value: Box<IonModel> },
    Reserved { type_descriptor: u8, bytes: Seq<u8> },
}

impl IonValue {
    pub open spec fn model(self) -> IonModel
        decreases self,
    {
        match self {
            IonValue::Null => IonModel::Null,
            IonValue::Nop => IonModel::Nop,
            IonValue::Bool(b) => IonModel::Bool(b),
            IonValue::Int(i) => IonModel::Int(i),
            IonValue::Float(b) => IonModel::Float(b@),
            IonValue::Decimal(b) => IonModel::Decimal(b@),
            IonValue::Timestamp(b) => IonModel::Timestamp(b@),
            IonValue::Symbol(s) => IonModel::Symbol(s),
            IonValue::String(s) => IonModel::String(s@),
            IonValue::Clob(b) => IonModel::Clob(b@),
            IonValue::Blob(b) => IonModel::Blob(b@),
            IonValue::List(items) => IonModel::List(models(items@)),
            IonValue::SExp(items) => IonModel::SExp(models(items@)),
            IonValue::Struct(fields) => IonModel::Struct(field_models(fields@)),
            IonValue::Annotation { symbols, value } => IonModel::Annotation {
                symbols: symbols@,
                value: Box::new((*value).model()),
            },
            IonValue::Reserved { type_descriptor, bytes } => IonModel::Reserved {
                type_descriptor,
                bytes: bytes@,
            },
        }
    }
}

impl View for IonValue {
    type V = IonModel;

    open spec fn view(&self) -> IonModel {
        self.model()
    }
}

/// The models of a sequence of values, in order.
pub open spec fn models(s: Seq<IonValue>) -> Seq<IonModel>
    decreases s,
{
    if s.len() == 0 {
        Seq::empty()
    } else {
        models(s.subrange(0, s.len() - 1)).push(s[s.len() - 1].model())
    }
}

/// The models of a sequence of struct fields, in order.
pub open spec fn field_models(s: Seq<(u64, IonValue)>) -> Seq<(u64, IonModel)>
    decreases s,
{
    if s.len() == 0 {
        Seq::empty()
    } else {
        field_models(s.subrange(0, s.len() - 1)).push(
            (s[s.len() - 1].0, s[s.len() - 1].1.model()),
        )
    }
}

pub proof fn lemma_models_push(s: Seq<IonValue>, v: IonValue)
    ensures
        models(s.push(v)) == models(s).push(v.model()),
{
    assert(s.push(v).subrange(0, s.len() as int) =~= s);
}

pub proof fn lemma_field_models_push(s: Seq<(u64, IonValue)>, f: (u64, IonValue))
    ensures
        field_models(s.push(f)) == field_models(s).push((f.0, f.1.model())),
{
    assert(s.push(f).subrange(0, s.len() as int) =~= s);
}

pub proof fn lemma_models_index(s: Seq<IonValue>)
    ensures
        models(s).len() == s.len(),
        forall|i: int| 0 <= i < s.len() ==> #[trigger] models(s)[i] == s[i].model(),
    decreases s.len(),
{
    if s.len() > 0 {
        let p = s.subrange(0, s.len() - 1);
        lemma_models_index(p);
        assert forall|i: int| 0 <= i < s.len() implies #[trigger] models(s)[i] == s[i].model() by {
            if i < s.len() - 1 {
                assert(p[i] == s[i]);
            }
        }
    }
}

pub proof fn lemma_field_models_index(s: Seq<(u64, IonValue)>)
    ensures
        field_models(s).len() == s.len(),
        forall|i: int|
            0 <= i < s.len() ==> #[trigger] field_models(s)[i] == (s[i].0, s[i].1.model()),
    decreases s.len(),
{
    if s.len() > 0 {
        let p = s.subrange(0, s.len() - 1);
        lemma_field_models_index(p);
        assert forall|i: int| 0 <= i < s.len() implies #[trigger] field_models(s)[i] == (
            s[i].0,
            s[i].1.model(),
        ) by {
            if i < s.len() - 1 {
                assert(p[i] == s[i]);
            }
        }
    }
}

// ---------------------------------------------------------------------------
// The binary grammar.
// ---------------------------------------------------------------------------

/// The largest VarUInt prefix value that can take seven more bits without
/// leaving `u64`.
pub open spec fn var_uint_limit() -> nat {
    0x200_0000_0000_0000
}

/// Read an Ion VarUInt starting at `pos`: seven value bits per byte, the high
/// bit marking the last byte. `acc` is the value read so far. Returns the
/// value and the position after it, or `None` when the range ends first or
/// the value leaves `u64`.
pub open spec fn var_uint_at(b: Seq<u8>, pos: int, end: int, acc: nat) -> Option<(u64, int)>
    decreases end - pos,
{
    if !(0 <= pos < end <= b.len()) {
        None
    } else if acc >= var_uint_limit() {
        None
    } else {
        let next = acc * 128 + (b[pos] % 128) as nat;
        if b[pos] >= 128 {
            Some((next as u64, pos + 1))
        } else {
            var_uint_at(b, pos + 1, end, next)
        }
    }
}

/// The big-endian unsigned value of a byte sequence.
pub open spec fn uint_value(s: Seq<u8>) -> nat
    decreases s.len(),
{
    if s.len() == 0 {
        0
    } else {
        uint_value(s.subrange(0, s.len() - 1)) * 256 + s[s.len() - 1] as nat
    }
}

/// A run of VarUInt symbol ids that fills `[pos, end)` exactly.
pub open spec fn symbols_at(b: Seq<u8>, pos: int, end: int) -> Option<Seq<u64>>
    decreases end - pos,
{
    if pos == end {
        Some(Seq::empty())
    } else {
        match var_uint_at(b, pos, end, 0) {
            None => None,
            Some((sid, next)) => if next <= pos || next > end {
                None
            } else {
                match symbols_at(b, next, end) {
                    None => None,
                    Some(rest) => Some(seq![sid] + rest),
                }
            },
        }
    }
}

/// The length of the value whose type descriptor is at `pos`, and the
/// position where its body starts.
pub open spec fn header_at(b: Seq<u8>, pos: int, end: int) -> Option<(u64, int)> {
    let t = b[pos] / 16;
    let l = b[pos] % 16;
    if t == 1 {
        Some((0u64, pos + 1))
    } else if (t == 13 && l == 1) || l == 14 {
        var_uint_at(b, pos + 1, end, 0)
    } else {
        Some((l as u64, pos + 1))
    }
}

/// The value that starts at `pos` and ends at or before `end`, with the
/// position just after it.
pub open spec fn value_at(b: Seq<u8>, pos: int, end: int) -> Result<(IonModel, int), IonError>
    decreases end - pos, 0int,
{
    if !(0 <= pos < end <= b.len()) {
        Err(IonError::UnexpectedEnd)
    } else {
        let td = b[pos];
        let t = td / 16;
        let l = td % 16;
        if l == 15 {
            if t <= 13 {
                Ok((IonModel::Null, pos + 1))
            } else {
                Err(IonError::InvalidTypeDescriptor)
            }
        } else {
            match header_at(b, pos, end) {
                None => Err(IonError::InvalidLength),
                Some((len, bs)) => if bs <= pos || bs + len > end {
                    Err(IonError::UnexpectedEnd)
                } else {
                    let be = bs + len;
                    let body = b.subrange(bs, be);
                    if t == 0 {
                        Ok((IonModel::Nop, be))
                    } else if t == 1 {
                        if l == 0 {
                            Ok((IonModel::Bool(false), pos + 1))
                        } else if l == 1 {
                            Ok((IonModel::Bool(true), pos + 1))
                        } else {
                            Err(IonError::InvalidTypeDescriptor)
                        }
                    } else if t == 2 {
                        if uint_value(body) <= i64::MAX {
                            Ok((IonModel::Int(uint_value(body) as i64), be))
                        } else {
                            Err(IonError::IntegerOverflow)
                        }
                    } else if t == 3 {
                        if uint_value(body) == 0 {
                            Err(IonError::InvalidTypeDescriptor)
                        } else if uint_value(body) <= 0x8000_0000_0000_0000 {
                            Ok((IonModel::Int((0 - uint_value(body)) as i64), be))
                        } else {
                            Err(IonError::IntegerOverflow)
                        }
                    } else if t == 4 {
                        Ok((IonModel::Float(body), be))
                    } else if t == 5 {
                        Ok((IonModel::Decimal(body), be))
                    } else if t == 6 {
                        Ok((IonModel::Timestamp(body), be))
                    } else if t == 7 {
                        if uint_value(body) <= u64::MAX {
                            Ok((IonModel::Symbol(uint_value(body) as u64), be))
                        } else {
                            Err(IonError::IntegerOverflow)
                        }
                    } else if t == 8 {
                        if valid_utf8(body) {
                            Ok((IonModel::String(decode_utf8(body)), be))
                        } else {
                            Err(IonError::InvalidUtf8)
                        }
                    } else if t == 9 {
                        Ok((IonModel::Clob(body), be))
                    } else if t == 10 {
                        Ok((IonModel::Blob(body), be))
                    } else if t == 11 {
                        match seq_at(b, bs, be) {
                            Ok(items) => Ok((IonModel::List(items), be)),
                            Err(e) => Err(e),
                        }
                    } else if t == 12 {
                        match seq_at(b, bs, be) {
                            Ok(items) => Ok((IonModel::SExp(items), be)),
                            Err(e) => Err(e),
                        }
                    } else if t == 13 {
                        match fields_at(b, bs, be) {
                            Ok(fields) => Ok((IonModel::Struct(fields), be)),
                            Err(e) => Err(e),
                        }
                    } else if t == 14 {
                        annotation_at(b, bs, be)
                    } else {
                        Ok((IonModel::Reserved { type_descriptor: td, bytes: body }, be))
                    }
                },
            }
        }
    }
}

/// The body of an annotation wrapper that fills `[bs, be)`: a VarUInt length
/// of the annotation list, the annotation symbol ids, then exactly one value
/// that is neither padding nor another wrapper.
pub open spec fn annotation_at(b: Seq<u8>, bs: int, be: int) -> Result<(IonModel, int), IonError>
    decreases be - bs, 0int,
{
    if !(0 <= bs < be <= b.len()) {
        Err(IonError::InvalidAnnotation)
    } else {
        match var_uint_at(b, bs, be, 0) {
            None => Err(IonError::InvalidAnnotation),
            Some((alen, ap)) => if ap <= bs || alen == 0 || ap + alen >= be {
                Err(IonError::InvalidAnnotation)
            } else {
                match symbols_at(b, ap, ap + alen) {
                    None => Err(IonError::InvalidAnnotation),
                    Some(symbols) => match value_at(b, ap + alen, be) {
                        Err(e) => Err(e),
                        Ok((v, vend)) => if vend == be && !(v is Nop) && !(v is Annotation) {
                            Ok((IonModel::Annotation { symbols, value: Box::new(v) }, be))
                        } else {
                            Err(IonError::InvalidAnnotation)
                        },
                    },
                }
            },
        }
    }
}

/// The values that fill `[pos, end)` exactly, padding dropped.
pub open spec fn seq_at(b: Seq<u8>, pos: int, end: int) -> Result<Seq<IonModel>, IonError>
    decreases end - pos, 1int,
{
    if !(0 <= pos < end <= b.len()) {
        Ok(Seq::empty())
    } else {
        match value_at(b, pos, end) {
            Err(e) => Err(e),
            Ok((v, next)) => if next <= pos || next > end {
                Err(IonError::UnexpectedEnd)
            } else {
                match seq_at(b, next, end) {
                    Err(e) => Err(e),
                    Ok(rest) => if v is Nop {
                        Ok(rest)
                    } else {
                        Ok(seq![v] + rest)
                    },
                }
            },
        }
    }
}

/// The struct fields that fill `[pos, end)` exactly: each a VarUInt field id
/// followed by a value; padded fields are dropped.
pub open spec fn fields_at(b: Seq<u8>, pos: int, end: int) -> Result<Seq<(u64, IonModel)>, IonError>
    decreases end - pos, 1int,
{
    if !(0 <= pos < end <= b.len()) {
        Ok(Seq::empty())
    } else {
        match var_uint_at(b, pos, end, 0) {
            None => Err(IonError::InvalidStructField),
            Some((field, vp)) => if vp <= pos || vp >= end {
                Err(IonError::InvalidStructField)
            } else {
                match value_at(b, vp, end) {
                    Err(e) => Err(e),
                    Ok((v, next)) => if next <= vp || next > end {
                        Err(IonError::UnexpectedEnd)
                    } else {
                        match fields_at(b, next, end) {
                            Err(e) => Err(e),
                            Ok(rest) => if v is Nop {
                                Ok(rest)
                            } else {
                                Ok(seq![(field, v)] + rest)
                            },
                        }
                    },
                }
            },
        }
    }
}

/// The position after any Ion version markers that start at `pos`.
pub open spec fn skip_version_markers(b: Seq<u8>, pos: int, end: int) -> int
    decreases end - pos,
{
    if 0 <= pos && pos + 4 <= end && end <= b.len() && b[pos] == 0xe0 && b[pos + 1] == 0x01
        && b[pos + 2] == 0x00 && b[pos + 3] == 0xea {
        skip_version_markers(b, pos + 4, end)
    } else {
        pos
    }
}

/// The first value in `[start, end)` after any version markers.
pub open spec fn decode_one_spec(b: Seq<u8>, start: int, end: int) -> Result<(IonModel, int), IonError> {
    value_at(b, skip_version_markers(b, start, end), end)
}

pub open spec fn value_result(r: Result<(IonValue, usize), IonError>) -> Result<(IonModel, int), IonError> {
    match r {
        Ok((v, n)) => Ok((v.model(), n as int)),
        Err(e) => Err(e),
    }
}

pub open spec fn seq_result(r: Result<Vec<IonValue>, IonError>) -> Result<Seq<IonModel>, IonError> {
    match r {
        Ok(v) => Ok(models(v@)),
        Err(e) => Err(e),
    }
}

pub open spec fn fields_result(r: Result<Vec<(u64, IonValue)>, IonError>) -> Result<Seq<(u64, IonModel)>, IonError> {
    match r {
        Ok(v) => Ok(field_models(v@)),
        Err(e) => Err(e),
    }
}


// ---------------------------------------------------------------------------
// Facts about the grammar.
// ---------------------------------------------------------------------------

pub proof fn lemma_var_uint_bounds(b: Seq<u8>, pos: int, end: int, acc: nat)
    ensures
        var_uint_at(b, pos, end, acc) matches Some((v, n)) ==> pos < n <= end,
    decreases end - pos,
{
    if 0 <= pos < end <= b.len() && acc < var_uint_limit() && b[pos] < 128 {
        lemma_var_uint_bounds(b, pos + 1, end, acc * 128 + (b[pos] % 128) as nat);
    }
}

pub proof fn lemma_uint_step(s: Seq<u8>, i: int)
    requires
        0 <= i < s.len(),
    ensures
        uint_value(s.subrange(0, i + 1)) == uint_value(s.subrange(0, i)) * 256 + s[i] as nat,
{
    assert(s.subrange(0, i + 1).subrange(0, i) =~= s.subrange(0, i));
}

/// Appending bytes never lowers a big-endian value below 256 times its
/// prefix.
pub proof fn lemma_uint_grows(s: Seq<u8>, i: int, k: int)
    requires
        0 <= i < k <= s.len(),
    ensures
        uint_value(s.subrange(0, k)) >= uint_value(s.subrange(0, i)) * 256,
    decreases k - i,
{
    lemma_uint_step(s, k - 1);
    if k - 1 > i {
        lemma_uint_grows(s, i, k - 1);
        let a = uint_value(s.subrange(0, k - 1));
        assert(a * 256 >= a) by (nonlinear_arith);
    }
}

// ---------------------------------------------------------------------------
// The decoder.
// ---------------------------------------------------------------------------

/// Decodes UTF-8 bytes into a `String` with `std::str::from_utf8`, which
/// succeeds exactly on valid UTF-8 and then holds the decoded characters.
#[verifier::external_body]
fn utf8_to_string(bytes: &[u8]) -> (r: Option<String>)
    ensures
        r is Some <==> valid_utf8(bytes@),
        r matches Some(s) ==> s@ == decode_utf8(bytes@),
{
    std::str::from_utf8(bytes).ok().map(|text| text.to_owned())
}

/// Reads a VarUInt at `pos`.
pub fn read_var_uint(b: &[u8], pos: usize, end: usize) -> (r: Option<(u64, usize)>)
    requires
        end <= b@.len(),
    ensures
        match r {
            Some((v, n)) => var_uint_at(b@, pos as int, end as int, 0) == Some((v, n as int)),
            None => var_uint_at(b@, pos as int, end as int, 0) is None,
        },
{
    let mut p = pos;
    let mut acc: u64 = 0;
    while p < end
        invariant
            end <= b@.len(),
            var_uint_at(b@, pos as int, end as int, 0) == var_uint_at(
                b@,
                p as int,
                end as int,
                acc as nat,
            ),
        decreases end - p,
    {
        if acc >= 0x200_0000_0000_0000 {
            return None;
        }
        let byte = b[p];
        let low = byte % 128;
        assert(acc * 128 + low <= u64::MAX) by (nonlinear_arith)
            requires
                acc < 0x200_0000_0000_0000,
                low < 128,
        ;
        let next = acc * 128 + low as u64;
        if byte >= 128 {
            return Some((next, p + 1));
        }
        acc = next;
        p = p + 1;
    }
    None
}

/// Reads the big-endian unsigned value of `b[start..end]`, or `None` when it
/// does not fit in `u64`.
pub fn read_uint(b: &[u8], start: usize, end: usize) -> (r: Option<u64>)
    requires
        start <= end <= b@.len(),
    ensures
        r is Some <==> uint_value(b@.subrange(start as int, end as int)) <= u64::MAX,
        r matches Some(v) ==> v == uint_value(b@.subrange(start as int, end as int)),
{
    let ghost s = b@.subrange(start as int, end as int);
    let mut p = start;
    let mut acc: u64 = 0;
    assert(s.subrange(0, 0) =~= Seq::<u8>::empty());
    while p < end
        invariant
            start <= p <= end <= b@.len(),
            s == b@.subrange(start as int, end as int),
            acc == uint_value(s.subrange(0, p - start)),
        decreases end - p,
    {
        if acc >= 0x100_0000_0000_0000 {
            proof {
                lemma_uint_grows(s, p - start, s.len() as int);
                assert(s.subrange(0, s.len() as int) =~= s);
            }
            return None;
        }
        let byte = b[p];
        proof {
            lemma_uint_step(s, p - start);
        }
        assert(acc * 256 + byte <= u64::MAX) by (nonlinear_arith)
            requires
                acc < 0x100_0000_0000_0000,
                byte < 256,
        ;
        acc = acc * 256 + byte as u64;
        p = p + 1;
    }
    assert(s.subrange(0, s.len() as int) =~= s);
    Some(acc)
}

/// Reads a run of VarUInt symbol ids that fills `[pos, end)`.
fn read_symbols(b: &[u8], pos: usize, end: usize) -> (r: Option<Vec<u64>>)
    requires
        pos <= end <= b@.len(),
    ensures
        match r {
            Some(v) => symbols_at(b@, pos as int, end as int) == Some(v@),
            None => symbols_at(b@, pos as int, end as int) is None,
        },
{
    let mut out: Vec<u64> = Vec::new();
    let mut p = pos;
    while p < end
        invariant
            pos <= p <= end <= b@.len(),
            symbols_at(b@, pos as int, end as int) == match symbols_at(b@, p as int, end as int) {
                Some(rest) => Some(out@ + rest),
                None => None,
            },
        decreases end - p,
    {
        match read_var_uint(b, p, end) {
            None => {
                return None;
            },
            Some((sid, next)) => {
                proof {
                    lemma_var_uint_bounds(b@, p as int, end as int, 0);
                }
                let ghost old_out = out@;
                out.push(sid);
                proof {
                    match symbols_at(b@, next as int, end as int) {
                        Some(rest) => {
                            assert(old_out + (seq![sid] + rest) =~= out@ + rest);
                        },
                        None => {},
                    }
                }
                p = next;
            },
        }
    }
    assert(out@ + Seq::<u64>::empty() =~= out@);
    Some(out)
}

/// Decodes the value whose type descriptor is at `pos`, inside `[pos, end)`.
pub fn decode_value(b: &[u8], pos: usize, end: usize) -> (r: Result<(IonValue, usize), IonError>)
    requires
        end <= b@.len(),
    ensures
        value_result(r) == value_at(b@, pos as int, end as int),
    decreases end - pos, 0int,
{
    if pos >= end {
        return Err(IonError::UnexpectedEnd);
    }
    let td = b[pos];
    let t = td / 16;
    let l = td % 16;
    if l == 15 {
        if t <= 13 {
            return Ok((IonValue::Null, pos + 1));
        } else {
            return Err(IonError::InvalidTypeDescriptor);
        }
    }
    let header = if t == 1 {
        Some((0u64, pos + 1))
    } else if (t == 13 && l == 1) || l == 14 {
        read_var_uint(b, pos + 1, end)
    } else {
        Some((l as u64, pos + 1))
    };
    proof {
        lemma_var_uint_bounds(b@, pos + 1, end as int, 0);
        assert(header_at(b@, pos as int, end as int) == match header {
            Some((len, n)) => Some((len, n as int)),
            None => None,
        });
    }
    let (len, bs) = match header {
        None => {
            return Err(IonError::InvalidLength);
        },
        Some(h) => h,
    };
    if bs <= pos || len > (end - bs) as u64 {
        return Err(IonError::UnexpectedEnd);
    }
    let be = bs + len as usize;
    let ghost body = b@.subrange(bs as int, be as int);
    if t == 0 {
        Ok((IonValue::Nop, be))
    } else if t == 1 {
        if l == 0 {
            Ok((IonValue::Bool(false), pos + 1))
        } else if l == 1 {
            Ok((IonValue::Bool(true), pos + 1))
        } else {
            Err(IonError::InvalidTypeDescriptor)
        }
    } else if t == 2 {
        match read_uint(b, bs, be) {
            Some(m) => if m <= 0x7fff_ffff_ffff_ffff {
                Ok((IonValue::Int(m as i64), be))
            } else {
                Err(IonError::IntegerOverflow)
            },
            None => Err(IonError::IntegerOverflow),
        }
    } else if t == 3 {
        match read_uint(b, bs, be) {
            Some(m) => if m == 0 {
                Err(IonError::InvalidTypeDescriptor)
            } else if m == 0x8000_0000_0000_0000 {
                Ok((IonValue::Int(i64::MIN), be))
            } else if m < 0x8000_0000_0000_0000 {
                let magnitude = m as i64;
                Ok((IonValue::Int(-magnitude), be))
            } else {
                Err(IonError::IntegerOverflow)
            },
            None => Err(IonError::IntegerOverflow),
        }
    } else if t == 4 {
        Ok((IonValue::Float(slice_to_vec(slice_subrange(b, bs, be))), be))
    } else if t == 5 {
        Ok((IonValue::Decimal(slice_to_vec(slice_subrange(b, bs, be))), be))
    } else if t == 6 {
        Ok((IonValue::Timestamp(slice_to_vec(slice_subrange(b, bs, be))), be))
    } else if t == 7 {
        match read_uint(b, bs, be) {
            Some(m) => Ok((IonValue::Symbol(m), be)),
            None => Err(IonError::IntegerOverflow),
        }
    } else if t == 8 {
        match utf8_to_string(slice_subrange(b, bs, be)) {
            Some(text) => Ok((IonValue::String(text), be)),
            None => Err(IonError::InvalidUtf8),
        }
    } else if t == 9 {
        Ok((IonValue::Clob(slice_to_vec(slice_subrange(b, bs, be))), be))
    } else if t == 10 {
        Ok((IonValue::Blob(slice_to_vec(slice_subrange(b, bs, be))), be))
    } else if t == 11 {
        match decode_seq(b, bs, be) {
            Ok(items) => Ok((IonValue::List(items), be)),
            Err(e) => Err(e),
        }
    } else if t == 12 {
        match decode_seq(b, bs, be) {
            Ok(items) => Ok((IonValue::SExp(items), be)),
            Err(e) => Err(e),
        }
    } else if t == 13 {
        match decode_fields(b, bs, be) {
            Ok(fields) => Ok((IonValue::Struct(fields), be)),
            Err(e) => Err(e),
        }
    } else if t == 14 {
        decode_annotation(b, bs, be)
    } else {
        Ok((
            IonValue::Reserved { type_descriptor: td, bytes: slice_to_vec(slice_subrange(b, bs, be)) },
            be,
        ))
    }
}

/// Decodes the body of an annotation wrapper that fills `[bs, be)`.
fn decode_annotation(b: &[u8], bs: usize, be: usize) -> (r: Result<(IonValue, usize), IonError>)
    requires
        be <= b@.len(),
    ensures
        value_result(r) == annotation_at(b@, bs as int, be as int),
    decreases be - bs, 0int,
{
    if bs >= be {
        return Err(IonError::InvalidAnnotation);
    }
    match read_var_uint(b, bs, be) {
        None => Err(IonError::InvalidAnnotation),
        Some((alen, ap)) => {
            proof {
                lemma_var_uint_bounds(b@, bs as int, be as int, 0);
            }
            if ap <= bs || alen == 0 || alen >= (be - ap) as u64 {
                return Err(IonError::InvalidAnnotation);
            }
            let aend = ap + alen as usize;
            match read_symbols(b, ap, aend) {
                None => Err(IonError::InvalidAnnotation),
                Some(symbols) => match decode_value(b, aend, be) {
                    Err(e) => Err(e),
                    Ok((v, vend)) => {
                        if vend == be && !matches!(v, IonValue::Nop) && !matches!(
                            v,
                            IonValue::Annotation { .. }
                        ) {
                            Ok((IonValue::Annotation { symbols, value: Box::new(v) }, be))
                        } else {
                            Err(IonError::InvalidAnnotation)
                        }
                    },
                },
            }
        },
    }
}

/// Decodes the values that fill `[pos, end)`, dropping padding.
fn decode_seq(b: &[u8], pos: usize, end: usize) -> (r: Result<Vec<IonValue>, IonError>)
    requires
        end <= b@.len(),
    ensures
        seq_result(r) == seq_at(b@, pos as int, end as int),
    decreases end - pos, 1int,
{
    let mut items: Vec<IonValue> = Vec::new();
    let mut p = pos;
    if p >= end {
        return Ok(items);
    }
    while p < end
        invariant
            pos <= p,
            end <= b@.len(),
            seq_at(b@, pos as int, end as int) == match seq_at(b@, p as int, end as int) {
                Ok(rest) => Ok(models(items@) + rest),
                Err(e) => Err(e),
            },
        decreases end - p,
    {
        match decode_value(b, p, end) {
            Err(e) => {
                return Err(e);
            },
            Ok((v, next)) => {
                if next <= p || next > end {
                    return Err(IonError::UnexpectedEnd);
                }
                let ghost old_items = items@;
                if !matches!(v, IonValue::Nop) {
                    proof {
                        lemma_models_push(items@, v);
                    }
                    items.push(v);
                }
                proof {
                    match seq_at(b@, next as int, end as int) {
                        Ok(rest) => {
                            if !(v.model() is Nop) {
                                assert(models(old_items) + (seq![v.model()] + rest)
                                    =~= models(items@) + rest);
                            }
                        },
                        Err(e) => {},
                    }
                }
                p = next;
            },
        }
    }
    assert(models(items@) + Seq::<IonModel>::empty() =~= models(items@));
    Ok(items)
}

/// Decodes the struct fields that fill `[pos, end)`, dropping padding.
fn decode_fields(b: &[u8], pos: usize, end: usize) -> (r: Result<Vec<(u64, IonValue)>, IonError>)
    requires
        end <= b@.len(),
    ensures
        fields_result(r) == fields_at(b@, pos as int, end as int),
    decreases end - pos, 1int,
{
    let mut fields: Vec<(u64, IonValue)> = Vec::new();
    let mut p = pos;
    if p >= end {
        return Ok(fields);
    }
    while p < end
        invariant
            pos <= p,
            end <= b@.len(),
            fields_at(b@, pos as int, end as int) == match fields_at(b@, p as int, end as int) {
                Ok(rest) => Ok(field_models(fields@) + rest),
                Err(e) => Err(e),
            },
        decreases end - p,
    {
        let (field, vp) = match read_var_uint(b, p, end) {
            None => {
                return Err(IonError::InvalidStructField);
            },
            Some(h) => h,
        };
        if vp <= p || vp >= end {
            return Err(IonError::InvalidStructField);
        }
        match decode_value(b, vp, end) {
            Err(e) => {
                return Err(e);
            },
            Ok((v, next)) => {
                if next <= vp || next > end {
                    return Err(IonError::UnexpectedEnd);
                }
                let ghost old_fields = fields@;
                if !matches!(v, IonValue::Nop) {
                    proof {
                        lemma_field_models_push(fields@, (field, v));
                    }
                    fields.push((field, v));
                }
                proof {
                    match fields_at(b@, next as int, end as int) {
                        Ok(rest) => {
                            if !(v.model() is Nop) {
                                assert(field_models(old_fields) + (seq![(field, v.model())] + rest)
                                    =~= field_models(fields@) + rest);
                            }
                        },
                        Err(e) => {},
                    }
                }
                p = next;
            },
        }
    }
    assert(field_models(fields@) + Seq::<(u64, IonModel)>::empty() =~= field_models(fields@));
    Ok(fields)
}

/// Decodes the first value in `[start, end)` after any version markers and
/// returns it with the position just after it.
pub fn decode_one(b: &[u8], start: usize, end: usize) -> (r: Result<(IonValue, usize), IonError>)
    requires
        end <= b@.len(),
    ensures
        value_result(r) == decode_one_spec(b@, start as int, end as int),
{
    let mut p = start;
    while p <= end && end - p >= 4 && b[p] == 0xe0 && b[p + 1] == 0x01 && b[p + 2] == 0x00 && b[p
        + 3] == 0xea
        invariant
            end <= b@.len(),
            skip_version_markers(b@, start as int, end as int) == skip_version_markers(
                b@,
                p as int,
                end as int,
            ),
        decreases end - p,
    {
        p = p + 4;
    }
    decode_value(b, p, end)
}

} // verus!
