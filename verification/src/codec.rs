use vstd::prelude::*;

use crate::error::Error;
use crate::float_text::{
    ascii_of_f32_bits, ascii_of_f64_bits, f32_bits_of_ascii, f64_bits_of_ascii,
};
use crate::lebytes::{
    le_bytes, lemma_le_bytes_injective, lemma_le_bytes_len, lemma_le_encode_decode,
    lemma_pow256_values, pow256, push_le, read_le,
};
use crate::metas::{spec_point_bytes, spec_token_count, FieldDef, Schema, ValueKind};
use crate::record::{
    ascii_of_scalar, bin_of_elems, bin_of_record, field_kind, field_matches, field_raws,
    fmt_scalar, lemma_bin_elems_len, lemma_field_raws_ok, lemma_point_bytes_skip,
    lemma_toks_elems_len, parse_elems,
    parse_record_toks, parse_scalar, raw_ok, raws_match, raws_ok, record_matches, record_raws,
    sint_of, spec_parse_scalar, toks_of_elems, toks_of_record, DynRecord, Field,
};
use crate::decimal::{lemma_int_round_trip, lemma_uint_round_trip};

verus! {

/// A raw value a token parses to is in range for its kind.
pub proof fn lemma_parse_scalar_ok(k: ValueKind, t: Seq<u8>)
    ensures
        spec_parse_scalar(k, t) matches Some(r) ==> raw_ok(k, r),
{
    lemma_pow256_values();
}

/// Every parsed element sequence has one value per token.
pub proof fn lemma_parse_elems_shape(k: ValueKind, ts: Seq<Seq<u8>>)
    ensures
        parse_elems(k, ts) matches Some(v) ==> v.len() == ts.len() && raws_ok(k, v),
    decreases ts.len(),
{
    if ts.len() > 0 {
        lemma_parse_scalar_ok(k, ts[0]);
        lemma_parse_elems_shape(k, ts.skip(1));
    }
}

/// A token line only parses when it holds exactly one token per slot.
pub proof fn lemma_parse_toks_len(fs: Seq<FieldDef>, ts: Seq<Seq<u8>>)
    ensures
        parse_record_toks(fs, ts) matches Some(rr) ==> ts.len() == spec_token_count(fs)
            && raws_match(fs, rr),
    decreases fs.len(),
{
    if fs.len() == 0 {
        assert(spec_token_count(fs) == 0);
    } else {
        let c = fs[0].count as int;
        lemma_point_bytes_skip(fs);
        if ts.len() >= c {
            lemma_parse_elems_shape(fs[0].kind, ts.take(c));
            lemma_parse_toks_len(fs.skip(1), ts.skip(c));
            if parse_record_toks(fs, ts) is Some {
                let rr = parse_record_toks(fs, ts)->Some_0;
                let es = parse_elems(fs[0].kind, ts.take(c))->Some_0;
                let rest = parse_record_toks(fs.skip(1), ts.skip(c))->Some_0;
                assert(rr == seq![es] + rest);
                assert forall|i: int| 0 <= i < fs.len() implies (#[trigger] rr[i]).len()
                    == fs[i].count && raws_ok(fs[i].kind, rr[i]) by {
                    if i == 0 {
                        assert(rr[0] == es);
                    } else {
                        assert(rr[i] == rest[i - 1]);
                        assert(fs[i] == fs.skip(1)[i - 1]);
                    }
                }
            }
        }
    }
}

/// The named float equations hold of every float slot of `rr`: parsing
/// the formatted token of the slot's bits gives the bits back. The
/// formatting wrapper's contract supplies this for every bit pattern
/// that is not a NaN, and for the canonical quiet NaN.
pub open spec fn ascii_raws_round_trip(fs: Seq<FieldDef>, rr: Seq<Seq<u64>>) -> bool {
    forall|i: int, j: int|
        0 <= i < fs.len() && 0 <= j < rr[i].len() ==> {
            &&& (fs[i].kind == ValueKind::F32 ==> f32_bits_of_ascii(
                ascii_of_f32_bits((#[trigger] rr[i][j]) as u32),
            ) == Some(rr[i][j] as u32))
            &&& (fs[i].kind == ValueKind::F64 ==> f64_bits_of_ascii(ascii_of_f64_bits(rr[i][j]))
                == Some(rr[i][j]))
        }
}

/// Each float slot's trusted text equation, guarded by its pattern being
/// one that can round-trip: what the formatting wrappers state of every
/// token the encoder emits.
pub open spec fn ascii_raws_witness(fs: Seq<FieldDef>, rr: Seq<Seq<u64>>) -> bool {
    forall|i: int, j: int|
        0 <= i < fs.len() && 0 <= j < rr[i].len() ==> {
            &&& (fs[i].kind == ValueKind::F32 && crate::float_text::f32_text_round_trips(
                (#[trigger] rr[i][j]) as u32,
            ) ==> f32_bits_of_ascii(ascii_of_f32_bits(rr[i][j] as u32)) == Some(rr[i][j] as u32))
            &&& (fs[i].kind == ValueKind::F64 && crate::float_text::f64_text_round_trips(rr[i][j])
                ==> f64_bits_of_ascii(ascii_of_f64_bits(rr[i][j])) == Some(rr[i][j]))
        }
}

/// Every float slot of `rr` holds a pattern that can round-trip through
/// text: not a NaN, or the canonical quiet NaN.
pub open spec fn raws_text_eligible(fs: Seq<FieldDef>, rr: Seq<Seq<u64>>) -> bool {
    forall|i: int, j: int|
        0 <= i < fs.len() && 0 <= j < rr[i].len() ==> {
            &&& (fs[i].kind == ValueKind::F32 ==> crate::float_text::f32_text_round_trips(
                (#[trigger] rr[i][j]) as u32,
            ))
            &&& (fs[i].kind == ValueKind::F64 ==> crate::float_text::f64_text_round_trips(
                rr[i][j],
            ))
        }
}

/// Writing a record as an ASCII token line and parsing the line back
/// yields the same raw values, given the witnesses the encoder's own
/// contract supplies, for every record whose float slots are eligible to
/// round-trip.
pub proof fn lemma_ascii_write_read(fs: Seq<FieldDef>, rr: Seq<Seq<u64>>)
    requires
        raws_match(fs, rr),
        ascii_raws_witness(fs, rr),
        raws_text_eligible(fs, rr),
    ensures
        parse_record_toks(fs, toks_of_record(fs, rr)) == Some(rr),
{
    assert(ascii_raws_round_trip(fs, rr));
    lemma_ascii_record_round_trip(fs, rr);
}

/// Formatting one raw scalar and parsing the token back returns it.
pub proof fn lemma_scalar_round_trip(k: ValueKind, r: u64)
    requires
        raw_ok(k, r),
        k == ValueKind::F32 ==> f32_bits_of_ascii(ascii_of_f32_bits(r as u32)) == Some(r as u32),
        k == ValueKind::F64 ==> f64_bits_of_ascii(ascii_of_f64_bits(r)) == Some(r),
    ensures
        spec_parse_scalar(k, ascii_of_scalar(k, r)) == Some(r),
{
    lemma_pow256_values();
    match k {
        ValueKind::U8 | ValueKind::U16 | ValueKind::U32 => {
            lemma_uint_round_trip(r as nat);
        },
        ValueKind::I8 | ValueKind::I16 | ValueKind::I32 => {
            let w = k.spec_width();
            let v = sint_of(r, w);
            lemma_int_round_trip(v);
            assert(-(pow256(w) / 2) <= v < pow256(w) / 2);
            assert((if v >= 0 {
                v
            } else {
                v + pow256(w)
            }) as u64 == r);
        },
        ValueKind::F32 => {
            assert((r as u32) as u64 == r);
        },
        ValueKind::F64 => {},
    }
}

/// Formatting a field's elements and parsing the tokens back returns them.
pub proof fn lemma_elems_round_trip(k: ValueKind, es: Seq<u64>)
    requires
        raws_ok(k, es),
        forall|j: int|
            0 <= j < es.len() ==> {
                &&& (k == ValueKind::F32 ==> f32_bits_of_ascii(
                    ascii_of_f32_bits((#[trigger] es[j]) as u32),
                ) == Some(es[j] as u32))
                &&& (k == ValueKind::F64 ==> f64_bits_of_ascii(ascii_of_f64_bits(es[j])) == Some(
                    es[j],
                ))
            },
    ensures
        parse_elems(k, toks_of_elems(k, es)) == Some(es),
    decreases es.len(),
{
    if es.len() > 0 {
        lemma_scalar_round_trip(k, es[0]);
        assert(forall|j: int| 0 <= j < es.skip(1).len() ==> #[trigger] es.skip(1)[j] == es[j + 1]);
        lemma_elems_round_trip(k, es.skip(1));
        let ts = toks_of_elems(k, es);
        assert(ts[0] == ascii_of_scalar(k, es[0]));
        assert(ts.skip(1) =~= toks_of_elems(k, es.skip(1)));
        assert(seq![es[0]] + es.skip(1) =~= es);
    }
}

/// Writing a record as an ASCII token line and parsing the line back
/// yields the same raw values, for every record whose float slots
/// round-trip through text (every non-NaN pattern, and the canonical
/// quiet NaN).
pub proof fn lemma_ascii_record_round_trip(fs: Seq<FieldDef>, rr: Seq<Seq<u64>>)
    requires
        raws_match(fs, rr),
        ascii_raws_round_trip(fs, rr),
    ensures
        parse_record_toks(fs, toks_of_record(fs, rr)) == Some(rr),
    decreases fs.len(),
{
    let ts = toks_of_record(fs, rr);
    if fs.len() == 0 {
        assert(ts.len() == 0);
    } else {
        let k = fs[0].kind;
        let c = fs[0].count as int;
        lemma_toks_elems_len(k, rr[0]);
        assert(forall|j: int|
            0 <= j < rr[0].len() ==> {
                &&& (k == ValueKind::F32 ==> f32_bits_of_ascii(
                    ascii_of_f32_bits((#[trigger] rr[0][j]) as u32),
                ) == Some(rr[0][j] as u32))
                &&& (k == ValueKind::F64 ==> f64_bits_of_ascii(ascii_of_f64_bits(rr[0][j]))
                    == Some(rr[0][j]))
            });
        lemma_elems_round_trip(k, rr[0]);
        assert(ts.take(c) =~= toks_of_elems(k, rr[0]));
        assert(ts.skip(c) =~= toks_of_record(fs.skip(1), rr.skip(1)));
        assert(raws_match(fs.skip(1), rr.skip(1))) by {
            assert(forall|i: int|
                0 <= i < fs.skip(1).len() ==> (#[trigger] rr.skip(1)[i]).len() == fs.skip(
                    1,
                )[i].count && raws_ok(fs.skip(1)[i].kind, rr.skip(1)[i]));
        }
        assert(ascii_raws_round_trip(fs.skip(1), rr.skip(1))) by {
            assert forall|i: int, j: int|
                0 <= i < fs.skip(1).len() && 0 <= j < rr.skip(1)[i].len() implies {
                &&& (fs.skip(1)[i].kind == ValueKind::F32 ==> f32_bits_of_ascii(
                    ascii_of_f32_bits((#[trigger] rr.skip(1)[i][j]) as u32),
                ) == Some(rr.skip(1)[i][j] as u32))
                &&& (fs.skip(1)[i].kind == ValueKind::F64 ==> f64_bits_of_ascii(
                    ascii_of_f64_bits(rr.skip(1)[i][j]),
                ) == Some(rr.skip(1)[i][j]))
            } by {
                assert(rr.skip(1)[i] == rr[i + 1]);
                assert(fs.skip(1)[i] == fs[i + 1]);
                assert(rr[i + 1][j] == rr.skip(1)[i][j]);
            }
        }
        lemma_ascii_record_round_trip(fs.skip(1), rr.skip(1));
        assert(seq![rr[0]] + rr.skip(1) =~= rr);
    }
}

/// Every value in `s` is below 256 to the `w`.
pub open spec fn all_lt_pow(w: nat, s: Seq<u64>) -> bool {
    forall|i: int| 0 <= i < s.len() ==> ((#[trigger] s[i]) as nat) < pow256(w)
}

/// Two raw element sequences with the same binary bytes are the same.
pub proof fn lemma_bin_elems_injective(w: nat, a: Seq<u64>, b: Seq<u64>)
    requires
        1 <= w,
        a.len() == b.len(),
        all_lt_pow(w, a),
        all_lt_pow(w, b),
        bin_of_elems(w, a) == bin_of_elems(w, b),
    ensures
        a == b,
    decreases a.len(),
{
    if a.len() > 0 {
        let ea = le_bytes(a[0] as nat, w);
        let eb = le_bytes(b[0] as nat, w);
        lemma_le_bytes_len(a[0] as nat, w);
        lemma_le_bytes_len(b[0] as nat, w);
        let ra = bin_of_elems(w, a.skip(1));
        let rb = bin_of_elems(w, b.skip(1));
        assert(ea + ra == eb + rb);
        assert(ea =~= eb) by {
            assert(forall|i: int| 0 <= i < w ==> (ea + ra)[i] == #[trigger] ea[i]);
            assert(forall|i: int| 0 <= i < w ==> (eb + rb)[i] == #[trigger] eb[i]);
        }
        lemma_le_bytes_injective(a[0] as nat, b[0] as nat, w);
        assert(ra =~= rb) by {
            assert(ra.len() == rb.len());
            assert(forall|i: int|
                0 <= i < ra.len() ==> (ea + ra)[w + i] == #[trigger] ra[i]);
            assert(forall|i: int|
                0 <= i < rb.len() ==> (eb + rb)[w + i] == #[trigger] rb[i]);
        }
        assert forall|i: int| 0 <= i < a.skip(1).len() implies ((#[trigger] a.skip(1)[i]) as nat)
            < pow256(w) by {
            assert(a.skip(1)[i] == a[i + 1]);
        }
        assert forall|i: int| 0 <= i < b.skip(1).len() implies ((#[trigger] b.skip(1)[i]) as nat)
            < pow256(w) by {
            assert(b.skip(1)[i] == b[i + 1]);
        }
        lemma_bin_elems_injective(w, a.skip(1), b.skip(1));
        assert forall|i: int| 0 <= i < a.len() implies a[i] == b[i] by {
            if i > 0 {
                assert(a[i] == a.skip(1)[i - 1]);
                assert(b[i] == b.skip(1)[i - 1]);
            }
        }
        assert(a =~= b);
    } else {
        assert(a =~= b);
    }
}

/// Two raw records matching the same schema with the same binary bytes
/// are the same record: binary decoding is unambiguous.
pub proof fn lemma_bin_record_injective(fs: Seq<FieldDef>, a: Seq<Seq<u64>>, b: Seq<Seq<u64>>)
    requires
        raws_match(fs, a),
        raws_match(fs, b),
        bin_of_record(fs, a) == bin_of_record(fs, b),
    ensures
        a == b,
    decreases fs.len(),
{
    if fs.len() > 0 {
        let w = fs[0].kind.spec_width();
        let ea = bin_of_elems(w, a[0]);
        let eb = bin_of_elems(w, b[0]);
        lemma_bin_elems_len(w, a[0]);
        lemma_bin_elems_len(w, b[0]);
        let ra = bin_of_record(fs.skip(1), a.skip(1));
        let rb = bin_of_record(fs.skip(1), b.skip(1));
        assert(ea + ra == eb + rb);
        let n = ea.len() as int;
        assert(ea =~= eb) by {
            assert(forall|i: int| 0 <= i < n ==> (ea + ra)[i] == #[trigger] ea[i]);
            assert(forall|i: int| 0 <= i < n ==> (eb + rb)[i] == #[trigger] eb[i]);
        }
        assert(ra =~= rb) by {
            assert(ra.len() == rb.len());
            assert(forall|i: int| 0 <= i < ra.len() ==> (ea + ra)[n + i] == #[trigger] ra[i]);
            assert(forall|i: int| 0 <= i < rb.len() ==> (eb + rb)[n + i] == #[trigger] rb[i]);
        }
        assert(1 <= w) by {
            lemma_pow256_values();
        }
        lemma_bin_elems_injective(w, a[0], b[0]);
        assert(raws_match(fs.skip(1), a.skip(1))) by {
            assert(forall|i: int|
                0 <= i < fs.skip(1).len() ==> (#[trigger] a.skip(1)[i]).len() == fs.skip(
                    1,
                )[i].count && raws_ok(fs.skip(1)[i].kind, a.skip(1)[i]));
        }
        assert(raws_match(fs.skip(1), b.skip(1))) by {
            assert(forall|i: int|
                0 <= i < fs.skip(1).len() ==> (#[trigger] b.skip(1)[i]).len() == fs.skip(
                    1,
                )[i].count && raws_ok(fs.skip(1)[i].kind, b.skip(1)[i]));
        }
        lemma_bin_record_injective(fs.skip(1), a.skip(1), b.skip(1));
        assert forall|i: int| 0 <= i < a.len() implies a[i] == b[i] by {
            if i > 0 {
                assert(a[i] == a.skip(1)[i - 1]);
                assert(b[i] == b.skip(1)[i - 1]);
            }
        }
        assert(a =~= b);
    } else {
        assert(a =~= b);
    }
}

/// The same logical record written once as ASCII and once as binary
/// decodes to the same raw values from both encodings: whatever raw
/// record `b` the binary bytes admit, and whatever raw record `c` the
/// token line parses to, both are the record written.
pub proof fn lemma_cross_encoding(
    fs: Seq<FieldDef>,
    a: Seq<Seq<u64>>,
    b: Seq<Seq<u64>>,
    c: Seq<Seq<u64>>,
)
    requires
        raws_match(fs, a),
        raws_match(fs, b),
        ascii_raws_round_trip(fs, a),
        bin_of_record(fs, b) == bin_of_record(fs, a),
        parse_record_toks(fs, toks_of_record(fs, a)) == Some(c),
    ensures
        b == a,
        c == a,
{
    lemma_bin_record_injective(fs, a, b);
    lemma_ascii_record_round_trip(fs, a);
}

/// The trusted text equation for each element of one field, guarded by
/// its pattern being one that can round-trip.
pub open spec fn elems_text_witness(k: ValueKind, es: Seq<u64>) -> bool {
    forall|j: int|
        0 <= j < es.len() ==> {
            &&& (k == ValueKind::F32 && crate::float_text::f32_text_round_trips(
                (#[trigger] es[j]) as u32,
            ) ==> f32_bits_of_ascii(ascii_of_f32_bits(es[j] as u32)) == Some(es[j] as u32))
            &&& (k == ValueKind::F64 && crate::float_text::f64_text_round_trips(es[j])
                ==> f64_bits_of_ascii(ascii_of_f64_bits(es[j])) == Some(es[j]))
        }
}

fn encode_elems_bin(out: &mut Vec<u8>, f: &Field, j: usize)
    requires
        j <= field_raws(*f).len(),
    ensures
        final(out)@ == old(out)@ + bin_of_elems(
            field_kind(*f).spec_width(),
            field_raws(*f).skip(j as int),
        ),
    decreases field_raws(*f).len() - j,
{
    let n = f.len();
    if j < n {
        let w64 = f.kind().width();
        let w = w64 as usize;
        proof {
            lemma_pow256_values();
        }
        let r = f.raw_at(j);
        push_le(out, r, w);
        let ghost mid = out@;
        encode_elems_bin(out, f, j + 1);
        proof {
            let wn = field_kind(*f).spec_width();
            let es = field_raws(*f).skip(j as int);
            assert(es[0] == field_raws(*f)[j as int]);
            assert(es.skip(1) =~= field_raws(*f).skip(j + 1));
            assert(out@ =~= old(out)@ + bin_of_elems(wn, es));
        }
    } else {
        proof {
            assert(field_raws(*f).skip(j as int) =~= Seq::<u64>::empty());
            assert(out@ =~= old(out)@ + bin_of_elems(
                field_kind(*f).spec_width(),
                field_raws(*f).skip(j as int),
            ));
        }
    }
}

fn encode_fields_bin(out: &mut Vec<u8>, r: &DynRecord, s: &Schema, i: usize)
    requires
        record_matches(*r, *s),
        i <= r.0@.len(),
    ensures
        final(out)@ == old(out)@ + bin_of_record(
            s.fields@.skip(i as int),
            record_raws(*r).skip(i as int),
        ),
    decreases r.0@.len() - i,
{
    let n = r.0.len();
    if i < n {
        let f = &r.0[i];
        encode_elems_bin(out, f, 0);
        let ghost mid = out@;
        encode_fields_bin(out, r, s, i + 1);
        proof {
            let fs = s.fields@.skip(i as int);
            let rr = record_raws(*r).skip(i as int);
            assert(rr[0] == field_raws(r.0@[i as int]));
            assert(fs[0] == s.fields@[i as int]);
            assert(field_matches(r.0@[i as int], s.fields@[i as int]));
            assert(field_raws(*f).skip(0) =~= field_raws(*f));
            assert(fs.skip(1) =~= s.fields@.skip(i + 1));
            assert(rr.skip(1) =~= record_raws(*r).skip(i + 1));
            assert(out@ =~= old(out)@ + bin_of_record(fs, rr));
        }
    } else {
        proof {
            assert(record_raws(*r).skip(i as int).len() == 0);
            assert(out@ =~= old(out)@ + bin_of_record(
                s.fields@.skip(i as int),
                record_raws(*r).skip(i as int),
            ));
        }
    }
}

/// Appends the binary encoding of one record: every field's elements in
/// schema order, little-endian, with no padding.
pub fn encode_record_bin(out: &mut Vec<u8>, r: &DynRecord, s: &Schema)
    requires
        record_matches(*r, *s),
    ensures
        final(out)@ == old(out)@ + bin_of_record(s.fields@, record_raws(*r)),
{
    encode_fields_bin(out, r, s, 0);
    proof {
        assert(s.fields@.skip(0) =~= s.fields@);
        assert(record_raws(*r).skip(0) =~= record_raws(*r));
    }
}

fn elems_tokens(f: &Field, j: usize) -> (r: Vec<Vec<u8>>)
    requires
        j <= field_raws(*f).len(),
    ensures
        r@.map_values(|t: Vec<u8>| t@) == toks_of_elems(
            field_kind(*f),
            field_raws(*f).skip(j as int),
        ),
        elems_text_witness(field_kind(*f), field_raws(*f).skip(j as int)),
        crate::tokens::all_wf_tokens(toks_of_elems(field_kind(*f), field_raws(*f).skip(j as int))),
    decreases field_raws(*f).len() - j,
{
    let n = f.len();
    if j < n {
        let raw = f.raw_at(j);
        let tok = fmt_scalar(f.kind(), raw);
        let mut rest = elems_tokens(f, j + 1);
        let ghost before = rest@.map_values(|t: Vec<u8>| t@);
        rest.insert(0, tok);
        proof {
            let k = field_kind(*f);
            let es = field_raws(*f).skip(j as int);
            assert(es[0] == field_raws(*f)[j as int]);
            assert(es.skip(1) =~= field_raws(*f).skip(j + 1));
            assert(rest@.map_values(|t: Vec<u8>| t@) =~= seq![tok@] + before);
            assert forall|m: int| 0 <= m < es.len() implies {
                &&& (k == ValueKind::F32 && crate::float_text::f32_text_round_trips(
                    (#[trigger] es[m]) as u32,
                ) ==> f32_bits_of_ascii(ascii_of_f32_bits(es[m] as u32)) == Some(es[m] as u32))
                &&& (k == ValueKind::F64 && crate::float_text::f64_text_round_trips(es[m])
                    ==> f64_bits_of_ascii(ascii_of_f64_bits(es[m])) == Some(es[m]))
            } by {
                if m > 0 {
                    assert(es[m] == es.skip(1)[m - 1]);
                }
            }
            let ts = toks_of_elems(k, es);
            assert forall|m: int| 0 <= m < ts.len() implies crate::tokens::wf_token(
                #[trigger] ts[m],
            ) by {
                if m == 0 {
                    assert(ts[0] == ascii_of_scalar(k, es[0]));
                } else {
                    assert(ts[m] == toks_of_elems(k, es.skip(1))[m - 1]);
                }
            }
        }
        rest
    } else {
        let r: Vec<Vec<u8>> = Vec::new();
        proof {
            assert(field_raws(*f).skip(j as int) =~= Seq::<u64>::empty());
            assert(r@.map_values(|t: Vec<u8>| t@) =~= toks_of_elems(
                field_kind(*f),
                field_raws(*f).skip(j as int),
            ));
        }
        r
    }
}

fn record_tokens(r: &DynRecord, s: &Schema, i: usize) -> (res: Vec<Vec<u8>>)
    requires
        record_matches(*r, *s),
        i <= r.0@.len(),
    ensures
        res@.map_values(|t: Vec<u8>| t@) == toks_of_record(
            s.fields@.skip(i as int),
            record_raws(*r).skip(i as int),
        ),
        ascii_raws_witness(s.fields@.skip(i as int), record_raws(*r).skip(i as int)),
        crate::tokens::all_wf_tokens(
            toks_of_record(s.fields@.skip(i as int), record_raws(*r).skip(i as int)),
        ),
    decreases r.0@.len() - i,
{
    let n = r.0.len();
    if i < n {
        let f = &r.0[i];
        let mut head = elems_tokens(f, 0);
        let rest = record_tokens(r, s, i + 1);
        let ghost headv = head@.map_values(|t: Vec<u8>| t@);
        let ghost restv = rest@.map_values(|t: Vec<u8>| t@);
        let m = rest.len();
        let mut k: usize = 0;
        while k < m
            invariant
                0 <= k <= m,
                m == rest@.len(),
                restv == rest@.map_values(|t: Vec<u8>| t@),
                head@.map_values(|t: Vec<u8>| t@) == headv + restv.take(k as int),
            decreases m - k,
        {
            let ghost before = head@.map_values(|t: Vec<u8>| t@);
            let tok = rest[k].clone();
            head.push(tok);
            proof {
                assert(tok@ == restv[k as int]);
                assert(head@.map_values(|t: Vec<u8>| t@) =~= before.push(restv[k as int]));
                assert(headv + restv.take(k + 1) =~= (headv + restv.take(k as int)).push(
                    restv[k as int],
                ));
            }
            k = k + 1;
        }
        proof {
            assert(restv.take(m as int) =~= restv);
            let fs = s.fields@.skip(i as int);
            let rr = record_raws(*r).skip(i as int);
            assert(rr[0] == field_raws(r.0@[i as int]));
            assert(fs[0] == s.fields@[i as int]);
            assert(field_matches(r.0@[i as int], s.fields@[i as int]));
            assert(field_raws(*f).skip(0) =~= field_raws(*f));
            assert(fs.skip(1) =~= s.fields@.skip(i + 1));
            assert(rr.skip(1) =~= record_raws(*r).skip(i + 1));
            assert(head@.map_values(|t: Vec<u8>| t@) =~= toks_of_record(fs, rr));
            assert forall|a: int, b: int| 0 <= a < fs.len() && 0 <= b < rr[a].len() implies {
                &&& (fs[a].kind == ValueKind::F32 && crate::float_text::f32_text_round_trips(
                    (#[trigger] rr[a][b]) as u32,
                ) ==> f32_bits_of_ascii(ascii_of_f32_bits(rr[a][b] as u32)) == Some(
                    rr[a][b] as u32,
                ))
                &&& (fs[a].kind == ValueKind::F64 && crate::float_text::f64_text_round_trips(
                    rr[a][b],
                ) ==> f64_bits_of_ascii(ascii_of_f64_bits(rr[a][b])) == Some(rr[a][b]))
            } by {
                if a == 0 {
                    assert(rr[0] == field_raws(*f));
                    assert(elems_text_witness(field_kind(*f), field_raws(*f)));
                    assert(field_kind(*f) == fs[0].kind);
                } else {
                    assert(rr[a] == rr.skip(1)[a - 1]);
                    assert(fs[a] == fs.skip(1)[a - 1]);
                    assert(rr[a][b] == rr.skip(1)[a - 1][b]);
                }
            }
            let ts = toks_of_record(fs, rr);
            let hd = toks_of_elems(fs[0].kind, rr[0]);
            lemma_toks_elems_len(fs[0].kind, rr[0]);
            assert forall|m: int| 0 <= m < ts.len() implies crate::tokens::wf_token(
                #[trigger] ts[m],
            ) by {
                if m < hd.len() {
                    assert(ts[m] == hd[m]);
                    assert(hd[m] == toks_of_elems(field_kind(*f), field_raws(*f))[m]);
                } else {
                    assert(ts[m] == toks_of_record(fs.skip(1), rr.skip(1))[m - hd.len()]);
                }
            }
        }
        head
    } else {
        let res: Vec<Vec<u8>> = Vec::new();
        proof {
            assert(record_raws(*r).skip(i as int).len() == 0);
            assert(res@.map_values(|t: Vec<u8>| t@) =~= toks_of_record(
                s.fields@.skip(i as int),
                record_raws(*r).skip(i as int),
            ));
        }
        res
    }
}

pub(crate) fn push_bytes(out: &mut Vec<u8>, t: &Vec<u8>)
    ensures
        final(out)@ == old(out)@ + t@,
{
    let n = t.len();
    let mut i: usize = 0;
    while i < n
        invariant
            0 <= i <= n,
            n == t@.len(),
            out@ == old(out)@ + t@.take(i as int),
        decreases n - i,
    {
        let b = t[i];
        out.push(b);
        proof {
            assert(old(out)@ + t@.take(i + 1) =~= (old(out)@ + t@.take(i as int)).push(b));
        }
        i = i + 1;
    }
    proof {
        assert(t@.take(n as int) =~= t@);
    }
}

pub(crate) fn push_joined(out: &mut Vec<u8>, toks: &Vec<Vec<u8>>, i: usize)
    requires
        i <= toks@.len(),
    ensures
        final(out)@ == old(out)@ + crate::tokens::join_sp(
            toks@.map_values(|t: Vec<u8>| t@).skip(i as int),
        ),
    decreases toks@.len() - i,
{
    let ghost tv = toks@.map_values(|t: Vec<u8>| t@);
    let n = toks.len();
    if i < n {
        push_bytes(out, &toks[i]);
        proof {
            assert(tv.skip(i as int)[0] == tv[i as int]);
            assert(tv[i as int] == toks@[i as int]@);
        }
        if i + 1 < n {
            out.push(32);
            let ghost mid = out@;
            push_joined(out, toks, i + 1);
            proof {
                assert(tv.skip(i as int).len() >= 2);
                assert(tv.skip(i as int).skip(1) =~= tv.skip(i + 1));
                assert(mid =~= old(out)@ + tv[i as int] + seq![32u8]);
                assert(out@ =~= old(out)@ + (tv[i as int] + seq![32u8] + crate::tokens::join_sp(
                    tv.skip(i + 1),
                )));
            }
        } else {
            proof {
                assert(tv.skip(i as int).len() == 1);
                assert(out@ =~= old(out)@ + crate::tokens::join_sp(tv.skip(i as int)));
            }
        }
    } else {
        proof {
            assert(tv.skip(i as int).len() == 0);
            assert(out@ =~= old(out)@ + crate::tokens::join_sp(tv.skip(i as int)));
        }
    }
}

/// Appends the ASCII encoding of one record: one token per scalar slot in
/// schema order, joined by single spaces, ended by a newline.
pub fn encode_record_ascii(out: &mut Vec<u8>, r: &DynRecord, s: &Schema)
    requires
        record_matches(*r, *s),
    ensures
        final(out)@ == old(out)@ + crate::tokens::join_sp(
            toks_of_record(s.fields@, record_raws(*r)),
        ) + seq![10u8],
        ascii_raws_witness(s.fields@, record_raws(*r)),
        crate::tokens::all_wf_tokens(toks_of_record(s.fields@, record_raws(*r))),
{
    let toks = record_tokens(r, s, 0);
    proof {
        assert(s.fields@.skip(0) =~= s.fields@);
        assert(record_raws(*r).skip(0) =~= record_raws(*r));
    }
    push_joined(out, &toks, 0);
    proof {
        assert(toks@.map_values(|t: Vec<u8>| t@).skip(0) =~= toks@.map_values(|t: Vec<u8>| t@));
    }
    out.push(10);
    proof {
        let line = crate::tokens::join_sp(toks_of_record(s.fields@, record_raws(*r)));
        assert(out@ =~= old(out)@ + line + seq![10u8]);
    }
}

/// The raw values the binary layout places at `pos`: `c` scalars of `w`
/// little-endian bytes each, in order.
pub open spec fn bin_raws_elems(w: nat, data: Seq<u8>, pos: int, c: nat) -> Seq<u64>
    decreases c,
{
    if c == 0 {
        Seq::empty()
    } else {
        seq![crate::lebytes::le_val(data.subrange(pos, pos + w)) as u64] + bin_raws_elems(
            w,
            data,
            pos + w,
            (c - 1) as nat,
        )
    }
}

/// The raw record the binary layout places at `pos`: each field's
/// elements in schema order, with no padding between fields.
pub open spec fn bin_raws_record(fs: Seq<FieldDef>, data: Seq<u8>, pos: int) -> Seq<Seq<u64>>
    decreases fs.len(),
{
    if fs.len() == 0 {
        Seq::empty()
    } else {
        seq![bin_raws_elems(fs[0].kind.spec_width(), data, pos, fs[0].count as nat)]
            + bin_raws_record(
            fs.skip(1),
            data,
            pos + (fs[0].count as nat) * fs[0].kind.spec_width(),
        )
    }
}

fn decode_elems_bin(data: &Vec<u8>, p: usize, k: ValueKind, c: usize) -> (res: (Vec<u64>, usize))
    requires
        p + (c as nat) * k.spec_width() <= data@.len(),
    ensures
        res.0@.len() == c,
        raws_ok(k, res.0@),
        res.1 == p + (c as nat) * k.spec_width(),
        bin_of_elems(k.spec_width(), res.0@) == data@.subrange(p as int, res.1 as int),
        res.0@ == bin_raws_elems(k.spec_width(), data@, p as int, c as nat),
    decreases c,
{
    proof {
        lemma_pow256_values();
    }
    let _ = data.len();  // brings data@.len() <= usize::MAX into scope
    if c == 0 {
        let v: Vec<u64> = Vec::new();
        proof {
            assert((0 as nat) * k.spec_width() == 0) by (nonlinear_arith);
            assert(bin_of_elems(k.spec_width(), v@) =~= data@.subrange(p as int, p as int));
        }
        (v, p)
    } else {
        let w64 = k.width();
        let w = w64 as usize;
        proof {
            assert(1 * k.spec_width() <= (c as nat) * k.spec_width()) by (nonlinear_arith)
                requires c >= 1;
            assert(1 * k.spec_width() == k.spec_width());
            assert((c as nat) * k.spec_width() == k.spec_width() + ((c - 1) as nat)
                * k.spec_width()) by (nonlinear_arith)
                requires c >= 1;
        }
        let raw = read_le(data, p, w);
        let (mut v, q) = decode_elems_bin(data, p + w, k, c - 1);
        let ghost before = v@;
        v.insert(0, raw);
        proof {
            let wn = k.spec_width();
            let s0 = data@.subrange(p as int, (p + w) as int);
            lemma_le_encode_decode(s0);
            assert(le_bytes(raw as nat, wn) == s0);
            assert(raw as nat == crate::lebytes::le_val(s0));
            assert(v@ =~= seq![raw] + before);
            assert(v@[0] == raw);
            assert(v@.skip(1) =~= before);
            assert(bin_of_elems(wn, v@) == le_bytes(raw as nat, wn) + bin_of_elems(wn, before));
            assert(data@.subrange(p as int, q as int) =~= s0 + data@.subrange(
                (p + w) as int,
                q as int,
            ));
        }
        (v, q)
    }
}

fn decode_fields_bin(data: &Vec<u8>, p: usize, s: &Schema, i: usize) -> (res: (Vec<Field>, usize))
    requires
        s.wf(),
        i <= s.fields@.len(),
        p + spec_point_bytes(s.fields@.skip(i as int)) <= data@.len(),
    ensures
        res.0@.len() == s.fields@.len() - i,
        forall|m: int|
            0 <= m < res.0@.len() ==> field_matches(
                #[trigger] res.0@[m],
                s.fields@.skip(i as int)[m],
            ),
        res.1 == p + spec_point_bytes(s.fields@.skip(i as int)),
        bin_of_record(s.fields@.skip(i as int), res.0@.map_values(|f: Field| field_raws(f)))
            == data@.subrange(p as int, res.1 as int),
        res.0@.map_values(|f: Field| field_raws(f)) == bin_raws_record(
            s.fields@.skip(i as int),
            data@,
            p as int,
        ),
    decreases s.fields@.len() - i,
{
    let ghost fs = s.fields@.skip(i as int);
    let _ = data.len();  // brings data@.len() <= usize::MAX into scope
    let n = s.fields.len();
    if i < n {
        proof {
            lemma_point_bytes_skip(fs);
            lemma_pow256_values();
            assert(fs[0] == s.fields@[i as int]);
            assert((fs[0].count as nat) * 1 <= (fs[0].count as nat) * fs[0].kind.spec_width())
                by (nonlinear_arith)
                requires fs[0].kind.spec_width() >= 1;
            assert((fs[0].count as nat) * 1 == fs[0].count as nat);
            assert(fs[0].count as nat <= usize::MAX);
        }
        let d = &s.fields[i];
        let c = d.count as usize;
        proof {
            assert(c as nat == fs[0].count as nat);
        }
        let (raws, q1) = decode_elems_bin(data, p, d.kind, c);
        proof {
            assert(fs.skip(1) =~= s.fields@.skip(i + 1));
        }
        let f = Field::from_raws(d.kind, raws);
        let (mut v, q) = decode_fields_bin(data, q1, s, i + 1);
        let ghost before = v@;
        v.insert(0, f);
        proof {
            assert(fs.skip(1) =~= s.fields@.skip(i + 1));
            assert(v@ =~= seq![f] + before);
            let mv = v@.map_values(|g: Field| field_raws(g));
            assert(mv =~= seq![field_raws(f)] + before.map_values(|g: Field| field_raws(g)));
            assert(mv[0] == field_raws(f));
            assert(mv.skip(1) =~= before.map_values(|g: Field| field_raws(g)));
            assert(bin_of_record(fs, mv) == bin_of_elems(fs[0].kind.spec_width(), field_raws(f))
                + bin_of_record(fs.skip(1), mv.skip(1)));
            assert(bin_raws_record(fs, data@, p as int) == seq![
                bin_raws_elems(fs[0].kind.spec_width(), data@, p as int, fs[0].count as nat),
            ] + bin_raws_record(fs.skip(1), data@, q1 as int));
            assert(mv =~= bin_raws_record(fs, data@, p as int));
            assert(data@.subrange(p as int, q as int) =~= data@.subrange(p as int, q1 as int)
                + data@.subrange(q1 as int, q as int));
            assert forall|m: int| 0 <= m < v@.len() implies field_matches(
                #[trigger] v@[m],
                fs[m],
            ) by {
                if m > 0 {
                    assert(v@[m] == before[m - 1]);
                    assert(fs[m] == fs.skip(1)[m - 1]);
                }
            }
        }
        (v, q)
    } else {
        let v: Vec<Field> = Vec::new();
        proof {
            assert(fs.len() == 0);
            assert(spec_point_bytes(fs) == 0);
            assert(v@.map_values(|f: Field| field_raws(f)).len() == 0);
            assert(v@.map_values(|f: Field| field_raws(f)) =~= bin_raws_record(
                fs,
                data@,
                p as int,
            ));
            assert(bin_of_record(fs, v@.map_values(|f: Field| field_raws(f))) =~= data@.subrange(
                p as int,
                p as int,
            ));
        }
        (v, p)
    }
}

/// Decodes one record from the binary data at `pos`: exactly the schema's
/// per-point byte count is consumed, and the record is the unique one
/// whose binary encoding is those bytes.
pub fn decode_record_bin(data: &Vec<u8>, pos: usize, s: &Schema) -> (res: (DynRecord, usize))
    requires
        s.wf(),
        pos + s.spec_point_bytes() <= data@.len(),
    ensures
        record_matches(res.0, *s),
        res.1 == pos + s.spec_point_bytes(),
        bin_of_record(s.fields@, record_raws(res.0)) == data@.subrange(pos as int, res.1 as int),
        record_raws(res.0) == bin_raws_record(s.fields@, data@, pos as int),
{
    proof {
        assert(s.fields@.skip(0) =~= s.fields@);
    }
    let (v, q) = decode_fields_bin(data, pos, s, 0);
    let r = DynRecord(v);
    proof {
        assert(record_raws(r) == v@.map_values(|f: Field| field_raws(f)));
    }
    (r, q)
}

fn decode_elems_ascii(k: ValueKind, toks: &Vec<Vec<u8>>, from: usize, c: usize) -> (res: Result<
    Vec<u64>,
    usize,
>)
    requires
        from + c <= toks@.len(),
    ensures
        ({
            let ts = toks@.map_values(|t: Vec<u8>| t@).subrange(from as int, (from + c) as int);
            match res {
                Ok(v) => parse_elems(k, ts) == Some(v@),
                Err(_) => parse_elems(k, ts) is None,
            }
        }),
    decreases c,
{
    let ghost tv = toks@.map_values(|t: Vec<u8>| t@);
    let ghost ts = tv.subrange(from as int, (from + c) as int);
    let _ = toks.len();  // brings toks@.len() <= usize::MAX into scope
    if c == 0 {
        let v: Vec<u64> = Vec::new();
        proof {
            assert(ts.len() == 0);
            assert(parse_elems(k, ts) == Some(v@));
        }
        Ok(v)
    } else {
        let t = &toks[from];
        proof {
            assert(ts[0] == tv[from as int]);
            assert(tv[from as int] == toks@[from as int]@);
        }
        match parse_scalar(k, t) {
            None => Err(from),
            Some(raw) => {
                match decode_elems_ascii(k, toks, from + 1, c - 1) {
                    Err(e) => {
                        proof {
                            assert(ts.skip(1) =~= tv.subrange(
                                (from + 1) as int,
                                (from + c) as int,
                            ));
                        }
                        Err(e)
                    },
                    Ok(mut v) => {
                        let ghost before = v@;
                        v.insert(0, raw);
                        proof {
                            assert(ts.skip(1) =~= tv.subrange(
                                (from + 1) as int,
                                (from + c) as int,
                            ));
                            assert(v@ =~= seq![raw] + before);
                        }
                        Ok(v)
                    },
                }
            },
        }
    }
}

fn decode_fields_ascii(toks: &Vec<Vec<u8>>, s: &Schema, fi: usize, from: usize) -> (res: Result<
    Vec<Field>,
    usize,
>)
    requires
        s.wf(),
        fi <= s.fields@.len(),
        from <= toks@.len(),
        toks@.len() - from == spec_token_count(s.fields@.skip(fi as int)),
    ensures
        ({
            let tv = toks@.map_values(|t: Vec<u8>| t@);
            let fs = s.fields@.skip(fi as int);
            match res {
                Ok(v) => {
                    &&& parse_record_toks(fs, tv.skip(from as int)) == Some(
                        v@.map_values(|f: Field| field_raws(f)),
                    )
                    &&& v@.len() == fs.len()
                    &&& forall|m: int|
                        0 <= m < v@.len() ==> field_matches(#[trigger] v@[m], fs[m])
                },
                Err(_) => parse_record_toks(fs, tv.skip(from as int)) is None,
            }
        }),
    decreases s.fields@.len() - fi,
{
    let ghost tv = toks@.map_values(|t: Vec<u8>| t@);
    let ghost fs = s.fields@.skip(fi as int);
    let _ = toks.len();  // brings toks@.len() <= usize::MAX into scope
    let n = s.fields.len();
    if fi < n {
        proof {
            lemma_point_bytes_skip(fs);
            assert(fs[0] == s.fields@[fi as int]);
            assert(fs[0].count as nat <= spec_token_count(fs));
            assert(fs[0].count as nat <= usize::MAX);
        }
        let d = &s.fields[fi];
        let c = d.count as usize;
        proof {
            assert(c as nat == fs[0].count as nat);
            assert(tv.skip(from as int).len() >= c);
            assert(tv.skip(from as int).take(c as int) =~= tv.subrange(
                from as int,
                (from + c) as int,
            ));
            assert(tv.skip(from as int).skip(c as int) =~= tv.skip((from + c) as int));
        }
        match decode_elems_ascii(d.kind, toks, from, c) {
            Err(e) => Err(e),
            Ok(raws) => {
                proof {
                    lemma_parse_elems_shape(d.kind, tv.subrange(from as int, (from + c) as int));
                }
                let f = Field::from_raws(d.kind, raws);
                proof {
                    assert(fs.skip(1) =~= s.fields@.skip(fi + 1));
                }
                match decode_fields_ascii(toks, s, fi + 1, from + c) {
                    Err(e) => Err(e),
                    Ok(mut v) => {
                        let ghost before = v@;
                        v.insert(0, f);
                        proof {
                            assert(v@ =~= seq![f] + before);
                            let mv = v@.map_values(|g: Field| field_raws(g));
                            assert(mv =~= seq![field_raws(f)] + before.map_values(
                                |g: Field| field_raws(g),
                            ));
                            assert(mv[0] == field_raws(f));
                            assert(mv.skip(1) =~= before.map_values(|g: Field| field_raws(g)));
                            assert forall|m: int| 0 <= m < v@.len() implies field_matches(
                                #[trigger] v@[m],
                                fs[m],
                            ) by {
                                if m > 0 {
                                    assert(v@[m] == before[m - 1]);
                                    assert(fs[m] == fs.skip(1)[m - 1]);
                                }
                            }
                        }
                        Ok(v)
                    },
                }
            },
        }
    } else {
        let v: Vec<Field> = Vec::new();
        proof {
            assert(fs.len() == 0);
            assert(spec_token_count(fs) == 0);
            assert(tv.skip(from as int).len() == 0);
            assert(parse_record_toks(fs, tv.skip(from as int)) == Some(
                v@.map_values(|f: Field| field_raws(f)),
            ));
        }
        Ok(v)
    }
}

/// Decodes one record from the tokens of one ASCII data line. The line
/// must hold exactly one token per scalar slot, else the record's
/// `AsciiShape` fault comes; a token that does not parse as its field's
/// type gives the `BadToken` fault with the slot's index.
pub fn decode_record_ascii(toks: &Vec<Vec<u8>>, s: &Schema, point: u64) -> (res: Result<
    DynRecord,
    Error,
>)
    requires
        s.wf(),
    ensures
        ({
            let tv = toks@.map_values(|t: Vec<u8>| t@);
            match res {
                Ok(r) => {
                    &&& record_matches(r, *s)
                    &&& parse_record_toks(s.fields@, tv) == Some(record_raws(r))
                },
                Err(e) => {
                    &&& parse_record_toks(s.fields@, tv) is None
                    &&& (tv.len() != s.spec_token_count() ==> e == (Error::AsciiShape {
                        point,
                    }))
                    &&& (tv.len() == s.spec_token_count() ==> (e matches Error::BadToken {
                        point: p,
                        slot: _,
                    } && p == point))
                },
            }
        }),
{
    let ghost tv = toks@.map_values(|t: Vec<u8>| t@);
    let tc = s.token_count();
    if toks.len() != tc {
        proof {
            lemma_parse_toks_len(s.fields@, tv);
        }
        return Err(Error::AsciiShape { point });
    }
    proof {
        assert(s.fields@.skip(0) =~= s.fields@);
        assert(tv.skip(0) =~= tv);
    }
    match decode_fields_ascii(toks, s, 0, 0) {
        Err(slot) => Err(Error::BadToken { point, slot: slot as u64 }),
        Ok(v) => {
            let r = DynRecord(v);
            proof {
                assert(record_raws(r) == v@.map_values(|f: Field| field_raws(f)));
            }
            Ok(r)
        },
    }
}

/// Does the record match the schema, field for field?
pub fn check_record(r: &DynRecord, s: &Schema) -> (b: bool)
    ensures
        b == record_matches(*r, *s),
{
    let n = r.0.len();
    if n != s.fields.len() {
        return false;
    }
    let mut i: usize = 0;
    while i < n
        invariant
            0 <= i <= n,
            n == r.0@.len(),
            n == s.fields@.len(),
            forall|m: int| 0 <= m < i ==> field_matches(#[trigger] r.0@[m], s.fields@[m]),
        decreases n - i,
    {
        let f = &r.0[i];
        let d = &s.fields[i];
        let k = f.kind();
        if k != d.kind {
            return false;
        }
        let c = f.len();
        if c as u64 != d.count {
            return false;
        }
        i = i + 1;
    }
    true
}

} // verus!
