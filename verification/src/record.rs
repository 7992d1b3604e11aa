use vstd::prelude::*;

use crate::decimal::{
    dec_digits, digits_val_opt, int_text, spec_parse_int, spec_parse_uint,
    lemma_int_round_trip, lemma_uint_round_trip, lemma_uint_val_nonneg, parse_sign_mag,
    parse_u64_token, push_int_text, push_u64_text,
};
use crate::float_text::{
    ascii_of_f32_bits, ascii_of_f64_bits, f32_bits_of_ascii, f64_bits_of_ascii, format_f32_ascii,
    format_f64_ascii, parse_f32_ascii, parse_f64_ascii,
};
use crate::lebytes::{lemma_pow256_values, pow256};
use crate::metas::{FieldDef, Schema, ValueKind};

verus! {

/// One decoded field of one point: the scalar kind's typed payload, one
/// element per declared count; floats are carried as their IEEE-754 bit
/// patterns.
#[derive(Clone, Debug, PartialEq)]
pub enum Field {
    I8(Vec<i8>),
    U8(Vec<u8>),
    I16(Vec<i16>),
    U16(Vec<u16>),
    I32(Vec<i32>),
    U32(Vec<u32>),
    F32(Vec<u32>),
    F64(Vec<u64>),
}

/// One dynamically typed point: one `Field` per schema field, in schema
/// order.
#[derive(Clone, Debug, PartialEq)]
pub struct DynRecord(pub Vec<Field>);

/// The scalar kind a field's payload carries.
pub open spec fn field_kind(f: Field) -> ValueKind {
    match f {
        Field::I8(_) => ValueKind::I8,
        Field::U8(_) => ValueKind::U8,
        Field::I16(_) => ValueKind::I16,
        Field::U16(_) => ValueKind::U16,
        Field::I32(_) => ValueKind::I32,
        Field::U32(_) => ValueKind::U32,
        Field::F32(_) => ValueKind::F32,
        Field::F64(_) => ValueKind::F64,
    }
}

/// The raw values of a field's elements: each element as the unsigned
/// value of its little-endian bit pattern (two's complement for the
/// signed kinds, the IEEE-754 pattern for the float kinds).
pub open spec fn field_raws(f: Field) -> Seq<u64> {
    match f {
        Field::I8(v) => v@.map_values(|x: i8| (x as u8) as u64),
        Field::U8(v) => v@.map_values(|x: u8| x as u64),
        Field::I16(v) => v@.map_values(|x: i16| (x as u16) as u64),
        Field::U16(v) => v@.map_values(|x: u16| x as u64),
        Field::I32(v) => v@.map_values(|x: i32| (x as u32) as u64),
        Field::U32(v) => v@.map_values(|x: u32| x as u64),
        Field::F32(v) => v@.map_values(|x: u32| x as u64),
        Field::F64(v) => v@,
    }
}

/// A raw value in range for its kind: below 256 to the kind's width.
pub open spec fn raw_ok(k: ValueKind, r: u64) -> bool {
    (r as nat) < pow256(k.spec_width())
}

pub open spec fn raws_ok(k: ValueKind, rs: Seq<u64>) -> bool {
    forall|i: int| 0 <= i < rs.len() ==> raw_ok(k, #[trigger] rs[i])
}

/// Every payload a `Field` can hold is in range for its kind.
pub proof fn lemma_field_raws_ok(f: Field)
    ensures
        raws_ok(field_kind(f), field_raws(f)),
{
    lemma_pow256_values();
}

/// A field carries the kind and element count a descriptor declares.
pub open spec fn field_matches(f: Field, d: FieldDef) -> bool {
    field_kind(f) == d.kind && field_raws(f).len() == d.count
}

/// A record carries one matching field per schema field.
pub open spec fn record_matches(r: DynRecord, s: Schema) -> bool {
    &&& r.0@.len() == s.fields@.len()
    &&& forall|i: int|
        0 <= i < r.0@.len() ==> field_matches(#[trigger] r.0@[i], s.fields@[i])
}

/// The raw values of a whole record, field by field.
pub open spec fn record_raws(r: DynRecord) -> Seq<Seq<u64>> {
    r.0@.map_values(|f: Field| field_raws(f))
}

impl Field {
    pub fn kind(&self) -> (k: ValueKind)
        ensures
            k == field_kind(*self),
    {
        match self {
            Field::I8(_) => ValueKind::I8,
            Field::U8(_) => ValueKind::U8,
            Field::I16(_) => ValueKind::I16,
            Field::U16(_) => ValueKind::U16,
            Field::I32(_) => ValueKind::I32,
            Field::U32(_) => ValueKind::U32,
            Field::F32(_) => ValueKind::F32,
            Field::F64(_) => ValueKind::F64,
        }
    }

    /// Number of elements the field holds.
    pub fn len(&self) -> (n: usize)
        ensures
            n == field_raws(*self).len(),
    {
        match self {
            Field::I8(v) => v.len(),
            Field::U8(v) => v.len(),
            Field::I16(v) => v.len(),
            Field::U16(v) => v.len(),
            Field::I32(v) => v.len(),
            Field::U32(v) => v.len(),
            Field::F32(v) => v.len(),
            Field::F64(v) => v.len(),
        }
    }

    /// The raw value of element `j`.
    pub fn raw_at(&self, j: usize) -> (r: u64)
        requires
            j < field_raws(*self).len(),
        ensures
            r == field_raws(*self)[j as int],
            raw_ok(field_kind(*self), r),
    {
        let r: u64 = match self {
            Field::I8(v) => (v[j] as u8) as u64,
            Field::U8(v) => v[j] as u64,
            Field::I16(v) => (v[j] as u16) as u64,
            Field::U16(v) => v[j] as u64,
            Field::I32(v) => (v[j] as u32) as u64,
            Field::U32(v) => v[j] as u64,
            Field::F32(v) => v[j] as u64,
            Field::F64(v) => v[j],
        };
        proof {
            lemma_field_raws_ok(*self);
            assert(r == field_raws(*self)[j as int]);
        }
        r
    }

    /// Builds the typed field of kind `k` holding the given raw values.
    pub fn from_raws(k: ValueKind, rs: Vec<u64>) -> (f: Field)
        requires
            raws_ok(k, rs@),
        ensures
            field_kind(f) == k,
            field_raws(f) == rs@,
    {
        proof {
            lemma_pow256_values();
        }
        match k {
            ValueKind::I8 => {
                let mut v: Vec<i8> = Vec::new();
                let mut i: usize = 0;
                let n = rs.len();
                while i < n
                    invariant
                        0 <= i <= n,
                        n == rs@.len(),
                        raws_ok(ValueKind::I8, rs@),
                        v@.len() == i,
                        forall|m: int| 0 <= m < i ==> (#[trigger] v@[m] as u8) as u64 == rs@[m],
                    decreases n - i,
                {
                    let r = rs[i];
                    proof { lemma_pow256_values(); }
                    assert(r < 256);
                    assert(((r as u8) as i8 as u8) as u64 == r) by (bit_vector)
                        requires r < 256;
                    v.push((r as u8) as i8);
                    i = i + 1;
                }
                let f = Field::I8(v);
                proof {
                    assert(field_raws(f) =~= rs@);
                }
                f
            },
            ValueKind::U8 => {
                let mut v: Vec<u8> = Vec::new();
                let mut i: usize = 0;
                let n = rs.len();
                while i < n
                    invariant
                        0 <= i <= n,
                        n == rs@.len(),
                        raws_ok(ValueKind::U8, rs@),
                        v@.len() == i,
                        forall|m: int| 0 <= m < i ==> (#[trigger] v@[m]) as u64 == rs@[m],
                    decreases n - i,
                {
                    let r = rs[i];
                    proof { lemma_pow256_values(); }
                    assert(r < 256);
                    v.push(r as u8);
                    i = i + 1;
                }
                let f = Field::U8(v);
                proof {
                    assert(field_raws(f) =~= rs@);
                }
                f
            },
            ValueKind::I16 => {
                let mut v: Vec<i16> = Vec::new();
                let mut i: usize = 0;
                let n = rs.len();
                while i < n
                    invariant
                        0 <= i <= n,
                        n == rs@.len(),
                        raws_ok(ValueKind::I16, rs@),
                        v@.len() == i,
                        forall|m: int| 0 <= m < i ==> (#[trigger] v@[m] as u16) as u64 == rs@[m],
                    decreases n - i,
                {
                    let r = rs[i];
                    proof { lemma_pow256_values(); }
                    assert(r < 0x10000);
                    assert(((r as u16) as i16 as u16) as u64 == r) by (bit_vector)
                        requires r < 0x10000;
                    v.push((r as u16) as i16);
                    i = i + 1;
                }
                let f = Field::I16(v);
                proof {
                    assert(field_raws(f) =~= rs@);
                }
                f
            },
            ValueKind::U16 => {
                let mut v: Vec<u16> = Vec::new();
                let mut i: usize = 0;
                let n = rs.len();
                while i < n
                    invariant
                        0 <= i <= n,
                        n == rs@.len(),
                        raws_ok(ValueKind::U16, rs@),
                        v@.len() == i,
                        forall|m: int| 0 <= m < i ==> (#[trigger] v@[m]) as u64 == rs@[m],
                    decreases n - i,
                {
                    let r = rs[i];
                    proof { lemma_pow256_values(); }
                    assert(r < 0x10000);
                    v.push(r as u16);
                    i = i + 1;
                }
                let f = Field::U16(v);
                proof {
                    assert(field_raws(f) =~= rs@);
                }
                f
            },
            ValueKind::I32 => {
                let mut v: Vec<i32> = Vec::new();
                let mut i: usize = 0;
                let n = rs.len();
                while i < n
                    invariant
                        0 <= i <= n,
                        n == rs@.len(),
                        raws_ok(ValueKind::I32, rs@),
                        v@.len() == i,
                        forall|m: int| 0 <= m < i ==> (#[trigger] v@[m] as u32) as u64 == rs@[m],
                    decreases n - i,
                {
                    let r = rs[i];
                    proof { lemma_pow256_values(); }
                    assert(r < 0x1_0000_0000);
                    assert(((r as u32) as i32 as u32) as u64 == r) by (bit_vector)
                        requires r < 0x1_0000_0000;
                    v.push((r as u32) as i32);
                    i = i + 1;
                }
                let f = Field::I32(v);
                proof {
                    assert(field_raws(f) =~= rs@);
                }
                f
            },
            ValueKind::U32 => {
                let mut v: Vec<u32> = Vec::new();
                let mut i: usize = 0;
                let n = rs.len();
                while i < n
                    invariant
                        0 <= i <= n,
                        n == rs@.len(),
                        raws_ok(ValueKind::U32, rs@),
                        v@.len() == i,
                        forall|m: int| 0 <= m < i ==> (#[trigger] v@[m]) as u64 == rs@[m],
                    decreases n - i,
                {
                    let r = rs[i];
                    proof { lemma_pow256_values(); }
                    assert(r < 0x1_0000_0000);
                    v.push(r as u32);
                    i = i + 1;
                }
                let f = Field::U32(v);
                proof {
                    assert(field_raws(f) =~= rs@);
                }
                f
            },
            ValueKind::F32 => {
                let mut v: Vec<u32> = Vec::new();
                let mut i: usize = 0;
                let n = rs.len();
                while i < n
                    invariant
                        0 <= i <= n,
                        n == rs@.len(),
                        raws_ok(ValueKind::F32, rs@),
                        v@.len() == i,
                        forall|m: int| 0 <= m < i ==> (#[trigger] v@[m]) as u64 == rs@[m],
                    decreases n - i,
                {
                    let r = rs[i];
                    proof { lemma_pow256_values(); }
                    assert(r < 0x1_0000_0000);
                    v.push(r as u32);
                    i = i + 1;
                }
                let f = Field::F32(v);
                proof {
                    assert(field_raws(f) =~= rs@);
                }
                f
            },
            ValueKind::F64 => {
                let f = Field::F64(rs);
                f
            },
        }
    }
}

/// The signed value a raw pattern denotes in two's complement at width `w`.
pub open spec fn sint_of(r: u64, w: nat) -> int {
    if (r as nat) < pow256(w) / 2 {
        r as int
    } else {
        r as int - pow256(w)
    }
}

/// The ASCII token that encodes one raw scalar of kind `k`.
pub open spec fn ascii_of_scalar(k: ValueKind, r: u64) -> Seq<u8> {
    match k {
        ValueKind::U8 | ValueKind::U16 | ValueKind::U32 => dec_digits(r as nat),
        ValueKind::I8 | ValueKind::I16 | ValueKind::I32 => int_text(sint_of(r, k.spec_width())),
        ValueKind::F32 => ascii_of_f32_bits(r as u32),
        ValueKind::F64 => ascii_of_f64_bits(r),
    }
}

/// The raw scalar of kind `k` an ASCII token parses to, if any.
pub open spec fn spec_parse_scalar(k: ValueKind, t: Seq<u8>) -> Option<u64> {
    match k {
        ValueKind::U8 | ValueKind::U16 | ValueKind::U32 => match spec_parse_uint(t) {
            Some(v) => if 0 <= v < pow256(k.spec_width()) {
                Some(v as u64)
            } else {
                None
            },
            None => None,
        },
        ValueKind::I8 | ValueKind::I16 | ValueKind::I32 => match spec_parse_int(t) {
            Some(v) => if -(pow256(k.spec_width()) / 2) <= v < pow256(k.spec_width()) / 2 {
                Some((if v >= 0 {
                    v
                } else {
                    v + pow256(k.spec_width())
                }) as u64)
            } else {
                None
            },
            None => None,
        },
        ValueKind::F32 => match f32_bits_of_ascii(t) {
            Some(b) => Some(b as u64),
            None => None,
        },
        ValueKind::F64 => f64_bits_of_ascii(t),
    }
}

/// Parses one ASCII token as a raw scalar of kind `k`, exactly as the
/// textual grammar of that kind admits.
pub fn parse_scalar(k: ValueKind, t: &Vec<u8>) -> (r: Option<u64>)
    ensures
        r == spec_parse_scalar(k, t@),
{
    proof {
        lemma_pow256_values();
        if t@.len() >= 1 && (t@[0] == 43 || t@[0] == 45) {
            if digits_val_opt(t@.skip(1)) is Some {
                lemma_uint_val_nonneg(t@.skip(1));
            }
        }
        if digits_val_opt(t@) is Some {
            lemma_uint_val_nonneg(t@);
        }
    }
    match k {
        ValueKind::U8 => match parse_u64_token(t) {
            Some(v) => if v < 256 {
                Some(v)
            } else {
                None
            },
            None => None,
        },
        ValueKind::U16 => match parse_u64_token(t) {
            Some(v) => if v < 0x10000 {
                Some(v)
            } else {
                None
            },
            None => None,
        },
        ValueKind::U32 => match parse_u64_token(t) {
            Some(v) => if v < 0x1_0000_0000 {
                Some(v)
            } else {
                None
            },
            None => None,
        },
        ValueKind::I8 => match parse_sign_mag(t) {
            Some((neg, m)) => if !neg {
                if m < 128 {
                    Some(m)
                } else {
                    None
                }
            } else {
                if m <= 128 {
                    Some(256 - m)
                } else {
                    None
                }
            },
            None => None,
        },
        ValueKind::I16 => match parse_sign_mag(t) {
            Some((neg, m)) => if !neg {
                if m < 0x8000 {
                    Some(m)
                } else {
                    None
                }
            } else {
                if m <= 0x8000 {
                    Some(0x10000 - m)
                } else {
                    None
                }
            },
            None => None,
        },
        ValueKind::I32 => match parse_sign_mag(t) {
            Some((neg, m)) => if !neg {
                if m < 0x8000_0000 {
                    Some(m)
                } else {
                    None
                }
            } else {
                if m <= 0x8000_0000 {
                    Some(0x1_0000_0000 - m)
                } else {
                    None
                }
            },
            None => None,
        },
        ValueKind::F32 => match parse_f32_ascii(t) {
            Some(b) => Some(b as u64),
            None => None,
        },
        ValueKind::F64 => parse_f64_ascii(t),
    }
}

/// Decimal digits form a single whitespace-free token.
pub proof fn lemma_dec_token(n: nat)
    ensures
        crate::tokens::wf_token(dec_digits(n)),
{
    crate::decimal::lemma_dec_digits_wf(n);
    let t = dec_digits(n);
    assert forall|i: int| 0 <= i < t.len() implies !crate::tokens::is_space(#[trigger] t[i])
        && t[i] != 10 by {
        assert(crate::decimal::is_digit(t[i]));
    }
}

/// Signed decimal text forms a single whitespace-free token.
pub proof fn lemma_int_token(v: int)
    ensures
        crate::tokens::wf_token(int_text(v)),
{
    if v < 0 {
        crate::decimal::lemma_dec_digits_wf((-v) as nat);
        let t = int_text(v);
        let d = dec_digits((-v) as nat);
        assert forall|i: int| 0 <= i < t.len() implies !crate::tokens::is_space(#[trigger] t[i])
            && t[i] != 10 by {
            if i == 0 {
                assert(t[0] == 45u8);
            } else {
                assert(t[i] == d[i - 1]);
                assert(crate::decimal::is_digit(d[i - 1]));
            }
        }
    } else {
        lemma_dec_token(v as nat);
    }
}

/// Formats one raw scalar of kind `k` as its ASCII token. For float
/// kinds the token parses back to the same bits whenever the pattern can
/// round-trip through text (every non-NaN pattern, and the canonical
/// quiet NaN).
pub fn fmt_scalar(k: ValueKind, r: u64) -> (t: Vec<u8>)
    requires
        raw_ok(k, r),
    ensures
        t@ == ascii_of_scalar(k, r),
        k == ValueKind::F32 && crate::float_text::f32_text_round_trips(r as u32)
            ==> f32_bits_of_ascii(t@) == Some(r as u32),
        k == ValueKind::F64 && crate::float_text::f64_text_round_trips(r) ==> f64_bits_of_ascii(
            t@,
        ) == Some(r),
        crate::tokens::wf_token(t@),
{
    proof {
        lemma_pow256_values();
        match k {
            ValueKind::U8 | ValueKind::U16 | ValueKind::U32 => {
                lemma_dec_token(r as nat);
            },
            ValueKind::I8 | ValueKind::I16 | ValueKind::I32 => {
                lemma_int_token(sint_of(r, k.spec_width()));
            },
            _ => {},
        }
    }
    match k {
        ValueKind::U8 | ValueKind::U16 | ValueKind::U32 => {
            let mut out: Vec<u8> = Vec::new();
            push_u64_text(&mut out, r);
            proof {
                assert(out@ =~= dec_digits(r as nat));
            }
            out
        },
        ValueKind::I8 => {
            let neg = r >= 128;
            let m: u64 = if neg {
                256 - r
            } else {
                r
            };
            let mut out: Vec<u8> = Vec::new();
            push_int_text(&mut out, neg, m);
            proof {
                assert(sint_of(r, 1) == if neg {
                    -(m as int)
                } else {
                    m as int
                });
                assert(out@ =~= int_text(sint_of(r, 1)));
            }
            out
        },
        ValueKind::I16 => {
            let neg = r >= 0x8000;
            let m: u64 = if neg {
                0x10000 - r
            } else {
                r
            };
            let mut out: Vec<u8> = Vec::new();
            push_int_text(&mut out, neg, m);
            proof {
                assert(sint_of(r, 2) == if neg {
                    -(m as int)
                } else {
                    m as int
                });
                assert(out@ =~= int_text(sint_of(r, 2)));
            }
            out
        },
        ValueKind::I32 => {
            let neg = r >= 0x8000_0000;
            let m: u64 = if neg {
                0x1_0000_0000 - r
            } else {
                r
            };
            let mut out: Vec<u8> = Vec::new();
            push_int_text(&mut out, neg, m);
            proof {
                assert(sint_of(r, 4) == if neg {
                    -(m as int)
                } else {
                    m as int
                });
                assert(out@ =~= int_text(sint_of(r, 4)));
            }
            out
        },
        ValueKind::F32 => format_f32_ascii(r as u32),
        ValueKind::F64 => format_f64_ascii(r),
    }
}

/// The binary bytes of one field's elements: each raw value in `w`
/// little-endian bytes, in order, with no padding.
pub open spec fn bin_of_elems(w: nat, es: Seq<u64>) -> Seq<u8>
    decreases es.len(),
{
    if es.len() == 0 {
        Seq::empty()
    } else {
        crate::lebytes::le_bytes(es[0] as nat, w) + bin_of_elems(w, es.skip(1))
    }
}

/// The binary bytes of one record: the fields' bytes in schema order.
pub open spec fn bin_of_record(fs: Seq<FieldDef>, rr: Seq<Seq<u64>>) -> Seq<u8>
    decreases rr.len(),
{
    if rr.len() == 0 || fs.len() == 0 {
        Seq::empty()
    } else {
        bin_of_elems(fs[0].kind.spec_width(), rr[0]) + bin_of_record(fs.skip(1), rr.skip(1))
    }
}

/// The ASCII tokens of one field's elements.
pub open spec fn toks_of_elems(k: ValueKind, es: Seq<u64>) -> Seq<Seq<u8>>
    decreases es.len(),
{
    if es.len() == 0 {
        Seq::empty()
    } else {
        seq![ascii_of_scalar(k, es[0])] + toks_of_elems(k, es.skip(1))
    }
}

/// The ASCII tokens of one record: one token per scalar slot, in schema
/// order.
pub open spec fn toks_of_record(fs: Seq<FieldDef>, rr: Seq<Seq<u64>>) -> Seq<Seq<u8>>
    decreases rr.len(),
{
    if rr.len() == 0 || fs.len() == 0 {
        Seq::empty()
    } else {
        toks_of_elems(fs[0].kind, rr[0]) + toks_of_record(fs.skip(1), rr.skip(1))
    }
}

/// The raw values one field's tokens parse to, if every token parses.
pub open spec fn parse_elems(k: ValueKind, ts: Seq<Seq<u8>>) -> Option<Seq<u64>>
    decreases ts.len(),
{
    if ts.len() == 0 {
        Some(Seq::empty())
    } else {
        match spec_parse_scalar(k, ts[0]) {
            Some(r) => match parse_elems(k, ts.skip(1)) {
                Some(rest) => Some(seq![r] + rest),
                None => None,
            },
            None => None,
        }
    }
}

/// The raw record a token line parses to: `None` when the token count
/// does not match the schema or a token fails to parse.
pub open spec fn parse_record_toks(fs: Seq<FieldDef>, ts: Seq<Seq<u8>>) -> Option<Seq<Seq<u64>>>
    decreases fs.len(),
{
    if fs.len() == 0 {
        if ts.len() == 0 {
            Some(Seq::empty())
        } else {
            None
        }
    } else if ts.len() < fs[0].count {
        None
    } else {
        match parse_elems(fs[0].kind, ts.take(fs[0].count as int)) {
            Some(es) => match parse_record_toks(fs.skip(1), ts.skip(fs[0].count as int)) {
                Some(rest) => Some(seq![es] + rest),
                None => None,
            },
            None => None,
        }
    }
}

/// Raw values shaped as a schema demands: one element sequence per field,
/// of the declared count, every value in range for the field's kind.
pub open spec fn raws_match(fs: Seq<FieldDef>, rr: Seq<Seq<u64>>) -> bool {
    &&& rr.len() == fs.len()
    &&& forall|i: int|
        0 <= i < fs.len() ==> (#[trigger] rr[i]).len() == fs[i].count && raws_ok(
            fs[i].kind,
            rr[i],
        )
}

/// A record that matches a schema has matching raw values.
pub proof fn lemma_record_matches_raws(r: DynRecord, s: Schema)
    requires
        record_matches(r, s),
    ensures
        raws_match(s.fields@, record_raws(r)),
{
    assert forall|i: int| 0 <= i < s.fields@.len() implies (#[trigger] record_raws(r)[i]).len()
        == s.fields@[i].count && raws_ok(s.fields@[i].kind, record_raws(r)[i]) by {
        assert(record_raws(r)[i] == field_raws(r.0@[i]));
        lemma_field_raws_ok(r.0@[i]);
    }
}

/// The shape of a schema: each field's scalar kind and element count.
pub open spec fn schema_shape(s: Schema) -> Seq<(ValueKind, nat)> {
    s.fields@.map_values(|d: FieldDef| (d.kind, d.count as nat))
}

/// The field names of a schema, in order.
pub open spec fn schema_names(s: Schema) -> Seq<Seq<u8>> {
    s.fields@.map_values(|d: FieldDef| d.name@)
}

/// The shape of a dynamic record: each field's scalar kind and length.
pub open spec fn record_shape(r: DynRecord) -> Seq<(ValueKind, nat)> {
    r.0@.map_values(|f: Field| (field_kind(f), field_raws(f).len()))
}

/// A record matching a schema has the schema's shape, and a record of a
/// schema's shape matches it: the two statements coincide.
pub proof fn lemma_shape_matches(r: DynRecord, s: Schema)
    ensures
        record_matches(r, s) <==> record_shape(r) == schema_shape(s),
{
    if record_matches(r, s) {
        assert(record_shape(r) =~= schema_shape(s));
    }
    if record_shape(r) == schema_shape(s) {
        assert(record_shape(r).len() == r.0@.len());
        assert(schema_shape(s).len() == s.fields@.len());
        assert(r.0@.len() == s.fields@.len());
        assert forall|i: int| 0 <= i < r.0@.len() implies field_matches(
            #[trigger] r.0@[i],
            s.fields@[i],
        ) by {
            assert(record_shape(r)[i] == (field_kind(r.0@[i]), field_raws(r.0@[i]).len()));
            assert(schema_shape(s)[i] == (s.fields@[i].kind, s.fields@[i].count as nat));
        }
    }
}

/// The schema-binding capability of a statically typed record type: the
/// type declares the field names and shape it binds to and converts a
/// matching dynamic record into itself without changing any raw value.
pub trait PcdDeserialize: Sized {
    /// The scalar kind and element count of each bound field, in order.
    spec fn spec_shape() -> Seq<(ValueKind, nat)>;

    /// The name of each bound field, in order.
    spec fn spec_names() -> Seq<Seq<u8>>;

    /// The raw values this record image carries, field by field.
    spec fn spec_raws(&self) -> Seq<Seq<u64>>;

    /// Does the schema bind? Its fields must carry exactly the names and
    /// the shape this type declares, in order: an extra, missing,
    /// renamed or retyped field refuses the binding.
    fn bind(schema: &Schema) -> (r: bool)
        ensures
            r == (schema_shape(*schema) == Self::spec_shape() && schema_names(*schema)
                == Self::spec_names()),
    ;

    /// Converts a matching dynamic record, keeping every raw value.
    fn from_record(rec: &DynRecord) -> (res: Self)
        requires
            record_shape(*rec) == Self::spec_shape(),
        ensures
            res.spec_raws() == record_raws(*rec),
    ;
}

/// The counterpart capability for writing: the type produces the dynamic
/// record image carrying exactly its raw values.
pub trait PcdSerialize: Sized {
    /// The scalar kind and element count of each bound field, in order.
    spec fn spec_shape() -> Seq<(ValueKind, nat)>;

    /// The name of each bound field, in order.
    spec fn spec_names() -> Seq<Seq<u8>>;

    /// The raw values this record image carries, field by field.
    spec fn spec_raws(&self) -> Seq<Seq<u64>>;

    /// Does the schema bind? Its fields must carry exactly the names and
    /// the shape this type declares, in order.
    fn bind(schema: &Schema) -> (r: bool)
        ensures
            r == (schema_shape(*schema) == Self::spec_shape() && schema_names(*schema)
                == Self::spec_names()),
    ;

    /// Builds the dynamic record carrying this record's raw values.
    fn to_record(&self) -> (rec: DynRecord)
        ensures
            record_shape(rec) == Self::spec_shape(),
            record_raws(rec) == self.spec_raws(),
    ;
}

/// A point of four single-precision floats, carried as IEEE-754 bit
/// patterns: the common `x y z rgb` layout.
#[derive(Clone, Copy, PartialEq, Eq, Structural, Debug)]
pub struct PointXyzRgb {
    pub x: u32,
    pub y: u32,
    pub z: u32,
    pub rgb: u32,
}

pub open spec fn xyzrgb_shape() -> Seq<(ValueKind, nat)> {
    seq![
        (ValueKind::F32, 1nat),
        (ValueKind::F32, 1nat),
        (ValueKind::F32, 1nat),
        (ValueKind::F32, 1nat),
    ]
}

/// The names `x`, `y`, `z`, `rgb`.
pub open spec fn xyzrgb_names() -> Seq<Seq<u8>> {
    seq![seq![120u8], seq![121u8], seq![122u8], seq![114u8, 103u8, 98u8]]
}

fn names_are_xyzrgb(schema: &Schema) -> (r: bool)
    requires
        schema.fields@.len() == 4,
    ensures
        r == (schema_names(*schema) == xyzrgb_names()),
{
    let n0 = vec![120u8];
    let n1 = vec![121u8];
    let n2 = vec![122u8];
    let n3 = vec![114u8, 103u8, 98u8];
    let ok = name_eq(&schema.fields[0].name, &n0) && name_eq(&schema.fields[1].name, &n1)
        && name_eq(&schema.fields[2].name, &n2) && name_eq(&schema.fields[3].name, &n3);
    proof {
        assert(schema_names(*schema)[0] == schema.fields@[0].name@);
        assert(schema_names(*schema)[1] == schema.fields@[1].name@);
        assert(schema_names(*schema)[2] == schema.fields@[2].name@);
        assert(schema_names(*schema)[3] == schema.fields@[3].name@);
        assert(n0@ =~= xyzrgb_names()[0]);
        assert(n1@ =~= xyzrgb_names()[1]);
        assert(n2@ =~= xyzrgb_names()[2]);
        assert(n3@ =~= xyzrgb_names()[3]);
        if ok {
            assert(schema_names(*schema) =~= xyzrgb_names());
        } else {
            assert(schema_names(*schema) != xyzrgb_names());
        }
    }
    ok
}

fn name_eq(a: &Vec<u8>, b: &Vec<u8>) -> (r: bool)
    ensures
        r == (a@ == b@),
{
    let n = a.len();
    if n != b.len() {
        proof {
            assert(a@.len() != b@.len());
        }
        return false;
    }
    let mut i: usize = 0;
    while i < n
        invariant
            0 <= i <= n,
            n == a@.len(),
            n == b@.len(),
            forall|m: int| 0 <= m < i ==> a@[m] == b@[m],
        decreases n - i,
    {
        if a[i] != b[i] {
            return false;
        }
        i = i + 1;
    }
    proof {
        assert(a@ =~= b@);
    }
    true
}

fn shape_is_xyzrgb(schema: &Schema) -> (r: bool)
    ensures
        r == (schema_shape(*schema) == xyzrgb_shape()),
{
    if schema.fields.len() != 4 {
        proof {
            assert(schema_shape(*schema).len() != xyzrgb_shape().len());
        }
        return false;
    }
    let mut i: usize = 0;
    while i < 4
        invariant
            0 <= i <= 4,
            schema.fields@.len() == 4,
            forall|m: int|
                0 <= m < i ==> #[trigger] schema.fields@[m].kind == ValueKind::F32
                    && schema.fields@[m].count == 1,
        decreases 4 - i,
    {
        let d = &schema.fields[i];
        if !(d.kind == ValueKind::F32) || d.count != 1 {
            proof {
                assert(schema_shape(*schema)[i as int] != xyzrgb_shape()[i as int]);
            }
            return false;
        }
        i = i + 1;
    }
    proof {
        assert(schema_shape(*schema) =~= xyzrgb_shape());
    }
    true
}

impl PcdDeserialize for PointXyzRgb {
    open spec fn spec_shape() -> Seq<(ValueKind, nat)> {
        xyzrgb_shape()
    }

    open spec fn spec_names() -> Seq<Seq<u8>> {
        xyzrgb_names()
    }

    open spec fn spec_raws(&self) -> Seq<Seq<u64>> {
        seq![
            seq![self.x as u64],
            seq![self.y as u64],
            seq![self.z as u64],
            seq![self.rgb as u64],
        ]
    }

    fn bind(schema: &Schema) -> (r: bool) {
        if !shape_is_xyzrgb(schema) {
            proof {
                assert(schema_shape(*schema) != xyzrgb_shape());
            }
            return false;
        }
        proof {
            assert(schema_shape(*schema).len() == schema.fields@.len());
            assert(xyzrgb_shape().len() == 4);
        }
        names_are_xyzrgb(schema)
    }

    fn from_record(rec: &DynRecord) -> (res: Self) {
        proof {
            lemma_pow256_values();
            assert(xyzrgb_shape().len() == 4);
            assert(record_shape(*rec).len() == rec.0@.len());
            assert(rec.0@.len() == 4);
            assert(record_shape(*rec)[0] == (field_kind(rec.0@[0]), field_raws(rec.0@[0]).len()));
            assert(record_shape(*rec)[1] == (field_kind(rec.0@[1]), field_raws(rec.0@[1]).len()));
            assert(record_shape(*rec)[2] == (field_kind(rec.0@[2]), field_raws(rec.0@[2]).len()));
            assert(record_shape(*rec)[3] == (field_kind(rec.0@[3]), field_raws(rec.0@[3]).len()));
        }
        let x64 = rec.0[0].raw_at(0);
        let y64 = rec.0[1].raw_at(0);
        let z64 = rec.0[2].raw_at(0);
        let rgb64 = rec.0[3].raw_at(0);
        let res = PointXyzRgb { x: x64 as u32, y: y64 as u32, z: z64 as u32, rgb: rgb64 as u32 };
        proof {
            let rw = <PointXyzRgb as PcdDeserialize>::spec_raws(&res);
            assert(rw[0] =~= field_raws(rec.0@[0]));
            assert(rw[1] =~= field_raws(rec.0@[1]));
            assert(rw[2] =~= field_raws(rec.0@[2]));
            assert(rw[3] =~= field_raws(rec.0@[3]));
            assert(rw =~= record_raws(*rec));
        }
        res
    }
}

impl PcdSerialize for PointXyzRgb {
    open spec fn spec_shape() -> Seq<(ValueKind, nat)> {
        xyzrgb_shape()
    }

    open spec fn spec_names() -> Seq<Seq<u8>> {
        xyzrgb_names()
    }

    open spec fn spec_raws(&self) -> Seq<Seq<u64>> {
        seq![
            seq![self.x as u64],
            seq![self.y as u64],
            seq![self.z as u64],
            seq![self.rgb as u64],
        ]
    }

    fn bind(schema: &Schema) -> (r: bool) {
        if !shape_is_xyzrgb(schema) {
            proof {
                assert(schema_shape(*schema) != xyzrgb_shape());
            }
            return false;
        }
        proof {
            assert(schema_shape(*schema).len() == schema.fields@.len());
            assert(xyzrgb_shape().len() == 4);
        }
        names_are_xyzrgb(schema)
    }

    fn to_record(&self) -> (rec: DynRecord) {
        let mut fields: Vec<Field> = Vec::new();
        fields.push(Field::F32(vec![self.x]));
        fields.push(Field::F32(vec![self.y]));
        fields.push(Field::F32(vec![self.z]));
        fields.push(Field::F32(vec![self.rgb]));
        let rec = DynRecord(fields);
        proof {
            assert(field_raws(rec.0@[0]) =~= seq![self.x as u64]);
            assert(field_raws(rec.0@[1]) =~= seq![self.y as u64]);
            assert(field_raws(rec.0@[2]) =~= seq![self.z as u64]);
            assert(field_raws(rec.0@[3]) =~= seq![self.rgb as u64]);
            assert(record_raws(rec) =~= <PointXyzRgb as PcdSerialize>::spec_raws(self));
            assert(record_shape(rec) =~= xyzrgb_shape());
        }
        rec
    }
}

pub proof fn lemma_bin_elems_len(w: nat, es: Seq<u64>)
    ensures
        bin_of_elems(w, es).len() == es.len() * w,
    decreases es.len(),
{
    if es.len() > 0 {
        lemma_bin_elems_len(w, es.skip(1));
        crate::lebytes::lemma_le_bytes_len(es[0] as nat, w);
        assert(es.len() * w == w + (es.len() - 1) * w) by (nonlinear_arith)
            requires es.len() >= 1;
    }
}

pub proof fn lemma_toks_elems_len(k: ValueKind, es: Seq<u64>)
    ensures
        toks_of_elems(k, es).len() == es.len(),
    decreases es.len(),
{
    if es.len() > 0 {
        lemma_toks_elems_len(k, es.skip(1));
    }
}

/// The front field splits off both sums.
pub proof fn lemma_point_bytes_skip(fs: Seq<FieldDef>)
    requires
        fs.len() >= 1,
    ensures
        crate::metas::spec_point_bytes(fs) == (fs[0].count as nat) * fs[0].kind.spec_width()
            + crate::metas::spec_point_bytes(fs.skip(1)),
        crate::metas::spec_token_count(fs) == (fs[0].count as nat) + crate::metas::spec_token_count(
            fs.skip(1),
        ),
    decreases fs.len(),
{
    if fs.len() == 1 {
        assert(fs.drop_last() =~= fs.skip(1));
        assert(fs.drop_last().len() == 0);
        assert(fs.last() == fs[0]);
    } else {
        lemma_point_bytes_skip(fs.drop_last());
        assert(fs.drop_last()[0] == fs[0]);
        assert(fs.drop_last().skip(1) =~= fs.skip(1).drop_last());
        assert(fs.skip(1).last() == fs.last());
        assert(fs.skip(1).len() >= 1);
    }
}

pub proof fn lemma_bin_record_len(fs: Seq<FieldDef>, rr: Seq<Seq<u64>>)
    requires
        raws_match(fs, rr),
    ensures
        bin_of_record(fs, rr).len() == crate::metas::spec_point_bytes(fs),
    decreases fs.len(),
{
    if fs.len() > 0 {
        lemma_point_bytes_skip(fs);
        lemma_bin_elems_len(fs[0].kind.spec_width(), rr[0]);
        assert(forall|i: int|
            0 <= i < fs.skip(1).len() ==> (#[trigger] rr.skip(1)[i]).len() == fs.skip(1)[i].count
                && raws_ok(fs.skip(1)[i].kind, rr.skip(1)[i]));
        lemma_bin_record_len(fs.skip(1), rr.skip(1));
    }
}

pub proof fn lemma_toks_record_len(fs: Seq<FieldDef>, rr: Seq<Seq<u64>>)
    requires
        raws_match(fs, rr),
    ensures
        toks_of_record(fs, rr).len() == crate::metas::spec_token_count(fs),
    decreases fs.len(),
{
    if fs.len() > 0 {
        lemma_point_bytes_skip(fs);
        lemma_toks_elems_len(fs[0].kind, rr[0]);
        assert(forall|i: int|
            0 <= i < fs.skip(1).len() ==> (#[trigger] rr.skip(1)[i]).len() == fs.skip(1)[i].count
                && raws_ok(fs.skip(1)[i].kind, rr.skip(1)[i]));
        lemma_toks_record_len(fs.skip(1), rr.skip(1));
    }
}

} // verus!
