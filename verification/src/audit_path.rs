//! Numeric source paths into Ion values, such as `$146[86].$145`: a field
//! selector is `$` and a symbol id, a list selector is an index in brackets,
//! and `.` separates selectors.
use vstd::prelude::*;
use crate::error::{AmazonKfxError, KfxErrorView};
use crate::ion::{IonModel, IonValue, models, field_models, lemma_models_index};
use crate::text::{chars_of, decimal, decimal_into, digits_value, is_digit, lemma_decimal_digits, string_from_chars, owned};
use crate::value::{first_field, opt_model, struct_get_from_fields};

verus! {

/// One step of a source path.
#[derive(Clone, Copy, Debug, PartialEq, Eq, Structural)]
pub enum IonAuditPathToken {
    /// The first struct field with this symbol id.
    Field(u64),
    /// The list or s-expression item at this index.
    Index(usize),
}

/// The number of ASCII digits at the start of `s`.
pub open spec fn digit_run_len(s: Seq<char>) -> nat
    decreases s.len(),
{
    if s.len() > 0 && is_digit(s[0]) {
        1 + digit_run_len(s.drop_first())
    } else {
        0
    }
}

pub proof fn lemma_digit_run_len_bound(s: Seq<char>)
    ensures
        digit_run_len(s) <= s.len(),
        forall|k: int| 0 <= k < digit_run_len(s) ==> is_digit(#[trigger] s[k]),
        digit_run_len(s) < s.len() ==> !is_digit(s[digit_run_len(s) as int]),
    decreases s.len(),
{
    if s.len() > 0 && is_digit(s[0]) {
        lemma_digit_run_len_bound(s.drop_first());
        assert forall|k: int| 0 <= k < digit_run_len(s) implies is_digit(#[trigger] s[k]) by {
            if k > 0 {
                assert(s[k] == s.drop_first()[k - 1]);
            }
        }
    }
}

pub open spec fn field_selector_error() -> Seq<char> {
    "Ion source path contains an invalid field selector"@
}

pub open spec fn list_selector_error() -> Seq<char> {
    "Ion source path contains an invalid list selector"@
}

pub open spec fn list_index_error() -> Seq<char> {
    "Ion source path contains an invalid list index"@
}

pub open spec fn unsupported_char_error() -> Seq<char> {
    "Ion source path contains an unsupported character"@
}

pub open spec fn empty_path_error() -> Seq<char> {
    "Ion source path must select at least one field or list item"@
}

pub open spec fn prepend_tokens(
    acc: Seq<IonAuditPathToken>,
    r: Result<Seq<IonAuditPathToken>, Seq<char>>,
) -> Result<Seq<IonAuditPathToken>, Seq<char>> {
    match r {
        Ok(rest) => Ok(acc + rest),
        Err(e) => Err(e),
    }
}

/// The selectors of `s`, read left to right; the first malformed selector
/// gives the error.
pub open spec fn path_tokens(s: Seq<char>) -> Result<Seq<IonAuditPathToken>, Seq<char>>
    decreases s.len(),
{
    if s.len() == 0 {
        Ok(Seq::empty())
    } else {
        proof {
            lemma_digit_run_len_bound(s.drop_first());
        }
        let n = digit_run_len(s.drop_first()) as int;
        let value = digits_value(s.subrange(1, 1 + n));
        if s[0] == '$' {
            if n == 0 || value > u64::MAX {
                Err(field_selector_error())
            } else {
                prepend_tokens(
                    seq![IonAuditPathToken::Field(value as u64)],
                    path_tokens(s.subrange(1 + n, s.len() as int)),
                )
            }
        } else if s[0] == '[' {
            if 1 + n >= s.len() || s[1 + n] != ']' {
                Err(list_selector_error())
            } else if n == 0 || value > usize::MAX {
                Err(list_index_error())
            } else {
                prepend_tokens(
                    seq![IonAuditPathToken::Index(value as usize)],
                    path_tokens(s.subrange(2 + n, s.len() as int)),
                )
            }
        } else if s[0] == '.' {
            path_tokens(s.drop_first())
        } else {
            Err(unsupported_char_error())
        }
    }
}

/// What parsing `s` as a source path gives: its selectors, or the message of
/// the first problem.
pub open spec fn parse_path_spec(s: Seq<char>) -> Result<Seq<IonAuditPathToken>, Seq<char>> {
    match path_tokens(s) {
        Ok(t) => if t.len() == 0 {
            Err(empty_path_error())
        } else {
            Ok(t)
        },
        Err(e) => Err(e),
    }
}

/// The text of one selector; a field selector after another selector is
/// preceded by `.`.
pub open spec fn token_text(t: IonAuditPathToken, first: bool) -> Seq<char> {
    match t {
        IonAuditPathToken::Field(f) => (if first {
            Seq::<char>::empty()
        } else {
            seq!['.']
        }) + seq!['$'] + decimal(f as nat),
        IonAuditPathToken::Index(i) => seq!['['] + decimal(i as nat) + seq![']'],
    }
}

pub open spec fn tokens_text(p: Seq<IonAuditPathToken>, first: bool) -> Seq<char>
    decreases p.len(),
{
    if p.len() == 0 {
        Seq::empty()
    } else {
        token_text(p[0], first) + tokens_text(p.drop_first(), false)
    }
}

/// The text of a source path; the empty path is written `$`.
pub open spec fn format_path_spec(p: Seq<IonAuditPathToken>) -> Seq<char> {
    if p.len() == 0 {
        seq!['$']
    } else {
        tokens_text(p, true)
    }
}

proof fn lemma_digit_run_of(s: Seq<char>, start: int, j: int)
    requires
        0 <= start <= j <= s.len(),
        forall|k: int| start <= k < j ==> is_digit(#[trigger] s[k]),
        j == s.len() || !is_digit(s[j]),
    ensures
        digit_run_len(s.subrange(start, s.len() as int)) == j - start,
    decreases j - start,
{
    let t = s.subrange(start, s.len() as int);
    if start < j {
        lemma_digit_run_of(s, start + 1, j);
        assert(t.drop_first() =~= s.subrange(start + 1, s.len() as int));
        assert(t[0] == s[start]);
    } else if j < s.len() {
        assert(t[0] == s[j]);
    }
}

proof fn lemma_digits_value_step(s: Seq<char>, a: int, j: int)
    requires
        0 <= a <= j < s.len(),
    ensures
        digits_value(s.subrange(a, j + 1)) == digits_value(s.subrange(a, j)) * 10 + ((s[j] as u32) - 48) as nat,
{
    let t = s.subrange(a, j + 1);
    assert(t.subrange(0, t.len() - 1) =~= s.subrange(a, j));
    assert(t[t.len() - 1] == s[j]);
}

proof fn lemma_digit_run_append(d: Seq<char>, r: Seq<char>)
    requires
        forall|k: int| 0 <= k < d.len() ==> is_digit(#[trigger] d[k]),
        r.len() == 0 || !is_digit(r[0]),
    ensures
        digit_run_len(d + r) == d.len(),
    decreases d.len(),
{
    if d.len() > 0 {
        assert((d + r).drop_first() =~= d.drop_first() + r);
        assert forall|k: int| 0 <= k < d.drop_first().len() implies is_digit(#[trigger] d.drop_first()[k]) by {
            assert(d.drop_first()[k] == d[k + 1]);
        }
        lemma_digit_run_append(d.drop_first(), r);
    } else {
        assert(d + r =~= r);
    }
}

/// Scans the digits of `chars` from `start`: where the run ends, and its
/// value when that is at most `limit`.
pub(crate) fn scan_number(chars: &Vec<char>, start: usize, limit: u64) -> (r: (usize, Option<u64>))
    requires
        start <= chars@.len(),
    ensures
        start <= r.0 <= chars@.len(),
        digit_run_len(chars@.subrange(start as int, chars@.len() as int)) == r.0 - start,
        match r.1 {
            Some(v) => v == digits_value(chars@.subrange(start as int, r.0 as int)) && v <= limit,
            None => digits_value(chars@.subrange(start as int, r.0 as int)) > limit,
        },
{
    let mut j: usize = start;
    let mut value: u64 = 0;
    let mut fits = true;
    proof {
        assert(chars@.subrange(start as int, start as int).len() == 0);
    }
    while j < chars.len() && '0' <= chars[j] && chars[j] <= '9'
        invariant
            start <= j <= chars@.len(),
            forall|k: int| start <= k < j ==> is_digit(#[trigger] chars@[k]),
            fits ==> value == digits_value(chars@.subrange(start as int, j as int)) && value <= limit,
            !fits ==> digits_value(chars@.subrange(start as int, j as int)) > limit,
        decreases chars@.len() - j,
    {
        let d: u64 = (chars[j] as u32 - 48) as u64;
        proof {
            lemma_digits_value_step(chars@, start as int, j as int);
        }
        if fits {
            match value.checked_mul(10) {
                Some(m) => match m.checked_add(d) {
                    Some(v) => {
                        if v <= limit {
                            value = v;
                        } else {
                            fits = false;
                        }
                    },
                    None => {
                        fits = false;
                    },
                },
                None => {
                    fits = false;
                },
            }
        }
        j = j + 1;
    }
    proof {
        lemma_digit_run_of(chars@, start as int, j as int);
    }
    if fits {
        (j, Some(value))
    } else {
        (j, None)
    }
}

/// Parses a source path such as `$146[86].$145`.
pub fn parse_ion_audit_path(path: &str) -> (r: Result<Vec<IonAuditPathToken>, AmazonKfxError>)
    ensures
        match r {
            Ok(tokens) => parse_path_spec(path@) == Ok::<Seq<IonAuditPathToken>, Seq<char>>(tokens@),
            Err(e) => parse_path_spec(path@) matches Err(m) && e@ == KfxErrorView::Semantic(m),
        },
{
    let chars = chars_of(path);
    let ghost s = chars@;
    let mut tokens: Vec<IonAuditPathToken> = Vec::new();
    let mut i: usize = 0;
    proof {
        assert(s.subrange(0, s.len() as int) =~= s);
        match path_tokens(s) {
            Ok(all) => assert(tokens@ + all =~= all),
            Err(_) => {},
        }
    }
    while i < chars.len()
        invariant
            s == chars@,
            s == path@,
            0 <= i <= s.len(),
            path_tokens(s) == prepend_tokens(tokens@, path_tokens(s.subrange(i as int, s.len() as int))),
        decreases s.len() - i,
    {
        let ghost t = s.subrange(i as int, s.len() as int);
        proof {
            assert(t[0] == s[i as int]);
            assert(t.drop_first() =~= s.subrange(i + 1, s.len() as int));
        }
        let c = chars[i];
        if c == '$' {
            let (end, value) = scan_number(&chars, i + 1, u64::MAX);
            proof {
                let n = (end - i - 1) as int;
                assert(t.subrange(1, 1 + n) =~= s.subrange(i + 1, end as int));
                assert(t.subrange(1 + n, t.len() as int) =~= s.subrange(end as int, s.len() as int));
            }
            match value {
                Some(v) => {
                    if end == i + 1 {
                        return Err(AmazonKfxError::Semantic(owned("Ion source path contains an invalid field selector")));
                    }
                    let ghost before = tokens@;
                    tokens.push(IonAuditPathToken::Field(v));
                    proof {
                        assert(tokens@ =~= before + seq![IonAuditPathToken::Field(v)]);
                        match path_tokens(s.subrange(end as int, s.len() as int)) {
                            Ok(rest) => assert(before + (seq![IonAuditPathToken::Field(v)] + rest) =~= tokens@ + rest),
                            Err(_) => {},
                        }
                    }
                    i = end;
                },
                None => {
                    return Err(AmazonKfxError::Semantic(owned("Ion source path contains an invalid field selector")));
                },
            }
        } else if c == '[' {
            let (end, value) = scan_number(&chars, i + 1, usize::MAX as u64);
            proof {
                let n = (end - i - 1) as int;
                assert(t.subrange(1, 1 + n) =~= s.subrange(i + 1, end as int));
            }
            if end >= chars.len() || chars[end] != ']' {
                proof {
                    let n = (end - i - 1) as int;
                    if 1 + n < t.len() {
                        assert(t[1 + n] == s[end as int]);
                    }
                }
                return Err(AmazonKfxError::Semantic(owned("Ion source path contains an invalid list selector")));
            }
            proof {
                let n = (end - i - 1) as int;
                assert(t[1 + n] == s[end as int]);
                assert(t.subrange(2 + n, t.len() as int) =~= s.subrange(end + 1, s.len() as int));
            }
            match value {
                Some(v) => {
                    if end == i + 1 {
                        return Err(AmazonKfxError::Semantic(owned("Ion source path contains an invalid list index")));
                    }
                    let ghost before = tokens@;
                    tokens.push(IonAuditPathToken::Index(v as usize));
                    proof {
                        assert(tokens@ =~= before + seq![IonAuditPathToken::Index(v as usize)]);
                        match path_tokens(s.subrange(end + 1, s.len() as int)) {
                            Ok(rest) => assert(before + (seq![IonAuditPathToken::Index(v as usize)] + rest) =~= tokens@ + rest),
                            Err(_) => {},
                        }
                    }
                    i = end + 1;
                },
                None => {
                    return Err(AmazonKfxError::Semantic(owned("Ion source path contains an invalid list index")));
                },
            }
        } else if c == '.' {
            i = i + 1;
        } else {
            return Err(AmazonKfxError::Semantic(owned("Ion source path contains an unsupported character")));
        }
    }
    proof {
        assert(s.subrange(i as int, s.len() as int).len() == 0);
        assert(tokens@ + Seq::<IonAuditPathToken>::empty() =~= tokens@);
    }
    if tokens.len() == 0 {
        return Err(AmazonKfxError::Semantic(owned("Ion source path must select at least one field or list item")));
    }
    Ok(tokens)
}

/// Writes a source path in the form that [`parse_ion_audit_path`] reads.
pub fn format_ion_audit_path(path: &[IonAuditPathToken]) -> (r: String)
    ensures
        r@ == format_path_spec(path@),
{
    let mut out: Vec<char> = Vec::new();
    let mut k: usize = 0;
    proof {
        assert(path@.subrange(0, path@.len() as int) =~= path@);
        assert(out@ + tokens_text(path@, true) =~= tokens_text(path@, true));
    }
    while k < path.len()
        invariant
            0 <= k <= path@.len(),
            (k == 0) == (out@.len() == 0),
            out@ + tokens_text(path@.subrange(k as int, path@.len() as int), k == 0) == tokens_text(path@, true),
        decreases path@.len() - k,
    {
        let ghost rest = path@.subrange(k as int, path@.len() as int);
        let ghost before = out@;
        proof {
            assert(rest[0] == path@[k as int]);
            assert(rest.drop_first() =~= path@.subrange(k + 1, path@.len() as int));
        }
        match path[k] {
            IonAuditPathToken::Field(f) => {
                if out.len() > 0 {
                    out.push('.');
                }
                out.push('$');
                decimal_into(f, &mut out);
                proof {
                    lemma_decimal_digits(f as nat);
                    assert(out@ =~= before + token_text(path@[k as int], k == 0));
                }
            },
            IonAuditPathToken::Index(index) => {
                out.push('[');
                decimal_into(index as u64, &mut out);
                out.push(']');
                proof {
                    assert(out@ =~= before + token_text(path@[k as int], k == 0));
                }
            },
        }
        proof {
            assert(before + tokens_text(rest, k == 0) =~= out@ + tokens_text(path@.subrange(k + 1, path@.len() as int), false));
        }
        k = k + 1;
    }
    proof {
        assert(path@.subrange(k as int, path@.len() as int).len() == 0);
        assert(out@ + Seq::<char>::empty() =~= out@);
    }
    if out.len() == 0 {
        out.push('$');
        assert(out@ =~= seq!['$']);
    }
    string_from_chars(out.as_slice())
}

proof fn lemma_tokens_text_head(p: Seq<IonAuditPathToken>)
    ensures
        tokens_text(p, false).len() == 0 || tokens_text(p, false)[0] == '.' || tokens_text(p, false)[0] == '[',
{
    if p.len() > 0 {
        match p[0] {
            IonAuditPathToken::Field(f) => {},
            IonAuditPathToken::Index(i) => {},
        }
    }
}

proof fn lemma_field_text_parse(f: u64, r: Seq<char>)
    requires
        r.len() == 0 || !is_digit(r[0]),
    ensures
        path_tokens(seq!['$'] + decimal(f as nat) + r) == prepend_tokens(seq![IonAuditPathToken::Field(f)], path_tokens(r)),
{
    let d = decimal(f as nat);
    let s = seq!['$'] + d + r;
    lemma_decimal_digits(f as nat);
    lemma_digit_run_append(d, r);
    assert(s.drop_first() =~= d + r);
    let n = d.len() as int;
    assert(s.subrange(1, 1 + n) =~= d);
    assert(s.subrange(1 + n, s.len() as int) =~= r);
}

proof fn lemma_index_text_parse(i: usize, r: Seq<char>)
    ensures
        path_tokens(seq!['['] + decimal(i as nat) + seq![']'] + r) == prepend_tokens(seq![IonAuditPathToken::Index(i)], path_tokens(r)),
{
    let d = decimal(i as nat);
    let s = seq!['['] + d + seq![']'] + r;
    lemma_decimal_digits(i as nat);
    lemma_digit_run_append(d, seq![']'] + r);
    assert(s.drop_first() =~= d + (seq![']'] + r));
    let n = d.len() as int;
    assert(s[1 + n] == ']');
    assert(s.subrange(1, 1 + n) =~= d);
    assert(s.subrange(2 + n, s.len() as int) =~= r);
}

proof fn lemma_tokens_text_parse(p: Seq<IonAuditPathToken>, first: bool)
    ensures
        path_tokens(tokens_text(p, first)) == Ok::<Seq<IonAuditPathToken>, Seq<char>>(p),
    decreases p.len(),
{
    if p.len() == 0 {
        assert(p =~= Seq::<IonAuditPathToken>::empty());
    } else {
        let q = p.drop_first();
        let r = tokens_text(q, false);
        lemma_tokens_text_parse(q, false);
        lemma_tokens_text_head(q);
        assert(seq![p[0]] + q =~= p);
        match p[0] {
            IonAuditPathToken::Field(f) => {
                lemma_field_text_parse(f, r);
                if first {
                    assert(tokens_text(p, first) =~= seq!['$'] + decimal(f as nat) + r);
                } else {
                    let s = tokens_text(p, first);
                    assert(s =~= seq!['.'] + (seq!['$'] + decimal(f as nat) + r));
                    assert(s.drop_first() =~= seq!['$'] + decimal(f as nat) + r);
                }
            },
            IonAuditPathToken::Index(i) => {
                lemma_index_text_parse(i, r);
                assert(tokens_text(p, first) =~= seq!['['] + decimal(i as nat) + seq![']'] + r);
            },
        }
    }
}

/// Reading back the text of a non-empty source path gives the same path.
pub proof fn lemma_audit_path_round_trip(p: Seq<IonAuditPathToken>)
    requires
        p.len() > 0,
    ensures
        parse_path_spec(format_path_spec(p)) == Ok::<Seq<IonAuditPathToken>, Seq<char>>(p),
{
    lemma_tokens_text_parse(p, true);
}

/// An Ion value without its annotation wrappers.
pub open spec fn strip_annotations(m: IonModel) -> IonModel
    decreases m,
{
    match m {
        IonModel::Annotation { value, .. } => strip_annotations(*value),
        _ => m,
    }
}

/// The child that one selector picks out of a value.
pub open spec fn path_step(m: IonModel, t: IonAuditPathToken) -> Option<IonModel> {
    match (m, t) {
        (IonModel::Struct(fields), IonAuditPathToken::Field(f)) => first_field(fields, f),
        (IonModel::List(items), IonAuditPathToken::Index(i)) => if i < items.len() {
            Some(items[i as int])
        } else {
            None
        },
        (IonModel::SExp(items), IonAuditPathToken::Index(i)) => if i < items.len() {
            Some(items[i as int])
        } else {
            None
        },
        _ => None,
    }
}

/// The value a path selects: each selector looks through annotations first.
pub open spec fn resolve_path_spec(m: IonModel, p: Seq<IonAuditPathToken>) -> Option<IonModel>
    decreases p.len(),
{
    if p.len() == 0 {
        Some(m)
    } else {
        match path_step(strip_annotations(m), p[0]) {
            Some(child) => resolve_path_spec(child, p.drop_first()),
            None => None,
        }
    }
}

pub(crate) fn strip_value(value: &IonValue) -> (r: &IonValue)
    ensures
        r@ == strip_annotations(value@),
    decreases value,
{
    match value {
        IonValue::Annotation { value: inner, .. } => strip_value(inner),
        _ => value,
    }
}

/// The value that `path` selects inside `value`.
pub fn resolve_ion_audit_path<'a>(value: &'a IonValue, path: &[IonAuditPathToken]) -> (r: Option<&'a IonValue>)
    ensures
        opt_model(r) == resolve_path_spec(value@, path@),
{
    let mut current: &IonValue = value;
    let mut k: usize = 0;
    proof {
        assert(path@.subrange(0, path@.len() as int) =~= path@);
    }
    while k < path.len()
        invariant
            0 <= k <= path@.len(),
            resolve_path_spec(value@, path@) == resolve_path_spec(current@, path@.subrange(k as int, path@.len() as int)),
        decreases path@.len() - k,
    {
        let ghost rest = path@.subrange(k as int, path@.len() as int);
        proof {
            assert(rest[0] == path@[k as int]);
            assert(rest.drop_first() =~= path@.subrange(k + 1, path@.len() as int));
        }
        let inner = strip_value(current);
        let next: &IonValue = match inner {
            IonValue::Struct(fields) => match path[k] {
                IonAuditPathToken::Field(f) => match struct_get_from_fields(fields.as_slice(), f) {
                    Some(child) => child,
                    None => {
                        return None;
                    },
                },
                IonAuditPathToken::Index(_) => {
                    return None;
                },
            },
            IonValue::List(items) => match path[k] {
                IonAuditPathToken::Index(i) => {
                    proof {
                        lemma_models_index(items@);
                    }
                    if i < items.len() {
                        &items[i]
                    } else {
                        return None;
                    }
                },
                IonAuditPathToken::Field(_) => {
                    return None;
                },
            },
            IonValue::SExp(items) => match path[k] {
                IonAuditPathToken::Index(i) => {
                    proof {
                        lemma_models_index(items@);
                    }
                    if i < items.len() {
                        &items[i]
                    } else {
                        return None;
                    }
                },
                IonAuditPathToken::Field(_) => {
                    return None;
                },
            },
            _ => {
                return None;
            },
        };
        current = next;
        k = k + 1;
    }
    proof {
        assert(path@.subrange(k as int, path@.len() as int).len() == 0);
    }
    Some(current)
}

} // verus!
