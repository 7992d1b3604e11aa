use vstd::prelude::*;

use crate::decimal::spec_parse_u64;
use crate::error::{Error, HeaderFault};
use crate::float_text::f64_bits_of_ascii;
use crate::metas::{DataKind, FieldDef, PcdMeta, Schema, TypeKind, ValueKind, ViewPoint};
use crate::tokens::{find_nl, find_newline, lemma_find_nl, split_tokens, subvec, tokens_of};

verus! {

/// Spec-level image of one parsed field descriptor.
pub ghost struct FieldModel {
    pub name: Seq<u8>,
    pub kind: ValueKind,
    pub count: u64,
}

/// Spec-level image of a parsed header.
pub ghost struct MetaModel {
    pub version: Seq<u8>,
    pub fields: Seq<FieldModel>,
    pub width: u64,
    pub height: u64,
    pub viewpoint: Seq<u64>,
    pub num_points: u64,
    pub data: DataKind,
}

/// The spec-level image of an executable metadata value.
pub open spec fn meta_model(m: PcdMeta) -> MetaModel {
    MetaModel {
        version: m.version@,
        fields: m.field_defs.fields@.map_values(
            |d: FieldDef| FieldModel { name: d.name@, kind: d.kind, count: d.count },
        ),
        width: m.width,
        height: m.height,
        viewpoint: seq![
            m.viewpoint.tx,
            m.viewpoint.ty,
            m.viewpoint.tz,
            m.viewpoint.qw,
            m.viewpoint.qx,
            m.viewpoint.qy,
            m.viewpoint.qz,
        ],
        num_points: m.num_points,
        data: m.data,
    }
}

pub open spec fn key_version() -> Seq<u8> {
    seq![86u8, 69u8, 82u8, 83u8, 73u8, 79u8, 78u8]
}

pub open spec fn key_fields() -> Seq<u8> {
    seq![70u8, 73u8, 69u8, 76u8, 68u8, 83u8]
}

pub open spec fn key_size() -> Seq<u8> {
    seq![83u8, 73u8, 90u8, 69u8]
}

pub open spec fn key_type() -> Seq<u8> {
    seq![84u8, 89u8, 80u8, 69u8]
}

pub open spec fn key_count() -> Seq<u8> {
    seq![67u8, 79u8, 85u8, 78u8, 84u8]
}

pub open spec fn key_width() -> Seq<u8> {
    seq![87u8, 73u8, 68u8, 84u8, 72u8]
}

pub open spec fn key_height() -> Seq<u8> {
    seq![72u8, 69u8, 73u8, 71u8, 72u8, 84u8]
}

pub open spec fn key_viewpoint() -> Seq<u8> {
    seq![86u8, 73u8, 69u8, 87u8, 80u8, 79u8, 73u8, 78u8, 84u8]
}

pub open spec fn key_points() -> Seq<u8> {
    seq![80u8, 79u8, 73u8, 78u8, 84u8, 83u8]
}

pub open spec fn key_data() -> Seq<u8> {
    seq![68u8, 65u8, 84u8, 65u8]
}

pub open spec fn word_ascii() -> Seq<u8> {
    seq![97u8, 115u8, 99u8, 105u8, 105u8]
}

pub open spec fn word_binary() -> Seq<u8> {
    seq![98u8, 105u8, 110u8, 97u8, 114u8, 121u8]
}

/// One header line: its argument tokens and the position after it, or
/// the fault it breaks.
pub open spec fn spec_kv_line(s: Seq<u8>, pos: int, key: Seq<u8>) -> Result<
    (Seq<Seq<u8>>, int),
    HeaderFault,
> {
    if pos >= s.len() {
        Err(HeaderFault::Missing)
    } else {
        let e = find_nl(s, pos);
        let toks = tokens_of(s.subrange(pos, e));
        let next = if e < s.len() {
            e + 1
        } else {
            e
        };
        if toks.len() == 0 || toks[0] != key {
            Err(HeaderFault::Key)
        } else {
            Ok((toks.skip(1), next))
        }
    }
}

/// Each token parsed as an unsigned 64-bit decimal.
pub open spec fn spec_u64_list(ts: Seq<Seq<u8>>) -> Option<Seq<u64>>
    decreases ts.len(),
{
    if ts.len() == 0 {
        Some(Seq::empty())
    } else {
        match spec_parse_u64(ts[0]) {
            Some(v) => match spec_u64_list(ts.skip(1)) {
                Some(rest) => Some(seq![v] + rest),
                None => None,
            },
            None => None,
        }
    }
}

/// The signedness class a one-byte TYPE code names.
pub open spec fn spec_type_code(t: Seq<u8>) -> Option<TypeKind> {
    if t.len() == 1 && t[0] == 73 {
        Some(TypeKind::I)
    } else if t.len() == 1 && t[0] == 85 {
        Some(TypeKind::U)
    } else if t.len() == 1 && t[0] == 70 {
        Some(TypeKind::F)
    } else {
        None
    }
}

pub open spec fn spec_type_list(ts: Seq<Seq<u8>>) -> Option<Seq<TypeKind>>
    decreases ts.len(),
{
    if ts.len() == 0 {
        Some(Seq::empty())
    } else {
        match spec_type_code(ts[0]) {
            Some(v) => match spec_type_list(ts.skip(1)) {
                Some(rest) => Some(seq![v] + rest),
                None => None,
            },
            None => None,
        }
    }
}

/// Each TYPE/SIZE pair resolved to a scalar kind.
pub open spec fn spec_kind_list(types: Seq<TypeKind>, sizes: Seq<u64>) -> Option<Seq<ValueKind>>
    decreases types.len(),
{
    if types.len() == 0 {
        Some(Seq::empty())
    } else {
        match ValueKind::spec_from_code(types[0], sizes[0]) {
            Some(k) => match spec_kind_list(types.skip(1), sizes.skip(1)) {
                Some(rest) => Some(seq![k] + rest),
                None => None,
            },
            None => None,
        }
    }
}

/// Each token parsed as a double-precision float's bits.
pub open spec fn spec_f64_list(ts: Seq<Seq<u8>>) -> Option<Seq<u64>>
    decreases ts.len(),
{
    if ts.len() == 0 {
        Some(Seq::empty())
    } else {
        match f64_bits_of_ascii(ts[0]) {
            Some(v) => match spec_f64_list(ts.skip(1)) {
                Some(rest) => Some(seq![v] + rest),
                None => None,
            },
            None => None,
        }
    }
}

/// The per-point byte total a parsed field list describes.
pub open spec fn model_point_bytes(fs: Seq<FieldModel>) -> nat
    decreases fs.len(),
{
    if fs.len() == 0 {
        0
    } else {
        model_point_bytes(fs.drop_last()) + (fs.last().count as nat) * fs.last().kind.spec_width()
    }
}

/// Some declared count is zero.
pub open spec fn any_zero(counts: Seq<u64>) -> bool {
    exists|i: int| 0 <= i < counts.len() && counts[i] == 0
}

/// A sequence of `n` ones: the counts when the COUNT line is absent.
pub open spec fn ones(n: nat) -> Seq<u64> {
    Seq::new(n, |i: int| 1u64)
}

/// The field descriptors a header's four aligned lists describe.
pub open spec fn spec_zip_fields(
    names: Seq<Seq<u8>>,
    kinds: Seq<ValueKind>,
    counts: Seq<u64>,
) -> Seq<FieldModel>
    decreases names.len(),
{
    if names.len() == 0 {
        Seq::empty()
    } else {
        seq![FieldModel { name: names[0], kind: kinds[0], count: counts[0] }]
            + spec_zip_fields(names.skip(1), kinds.skip(1), counts.skip(1))
    }
}

/// The rest of the header from the WIDTH line on; `lw` is that line's
/// 1-based number (5 without a COUNT line, 6 with one).
pub open spec fn spec_header_tail(
    s: Seq<u8>,
    pos: int,
    lw: u64,
    names: Seq<Seq<u8>>,
    kinds: Seq<ValueKind>,
    counts: Seq<u64>,
) -> Result<(MetaModel, int), Error> {
    match spec_kv_line(s, pos, key_width()) {
        Err(f) => Err(Error::HeaderFormat { line: lw, fault: f }),
        Ok((wargs, p6)) => if wargs.len() != 1 {
            Err(Error::HeaderFormat { line: lw, fault: HeaderFault::Arity })
        } else {
            match spec_parse_u64(wargs[0]) {
                None => Err(Error::HeaderFormat { line: lw, fault: HeaderFault::Number }),
                Some(width) => match spec_kv_line(s, p6, key_height()) {
                    Err(f) => Err(Error::HeaderFormat { line: (lw + 1) as u64, fault: f }),
                    Ok((hargs, p7)) => if hargs.len() != 1 {
                        Err(
                            Error::HeaderFormat {
                                line: (lw + 1) as u64,
                                fault: HeaderFault::Arity,
                            },
                        )
                    } else {
                        match spec_parse_u64(hargs[0]) {
                            None => Err(
                                Error::HeaderFormat {
                                    line: (lw + 1) as u64,
                                    fault: HeaderFault::Number,
                                },
                            ),
                            Some(height) => spec_header_end(
                                s,
                                p7,
                                lw,
                                names,
                                kinds,
                                counts,
                                width,
                                height,
                            ),
                        }
                    },
                },
            }
        },
    }
}

/// The last three header lines: VIEWPOINT, POINTS, DATA.
pub open spec fn spec_header_end(
    s: Seq<u8>,
    pos: int,
    lw: u64,
    names: Seq<Seq<u8>>,
    kinds: Seq<ValueKind>,
    counts: Seq<u64>,
    width: u64,
    height: u64,
) -> Result<(MetaModel, int), Error> {
    match spec_kv_line(s, pos, key_viewpoint()) {
        Err(f) => Err(Error::HeaderFormat { line: (lw + 2) as u64, fault: f }),
        Ok((vargs, p8)) => if vargs.len() != 7 {
            Err(Error::HeaderFormat { line: (lw + 2) as u64, fault: HeaderFault::Arity })
        } else {
            match spec_f64_list(vargs) {
                None => Err(
                    Error::HeaderFormat { line: (lw + 2) as u64, fault: HeaderFault::Float },
                ),
                Some(vp) => match spec_kv_line(s, p8, key_points()) {
                    Err(f) => Err(Error::HeaderFormat { line: (lw + 3) as u64, fault: f }),
                    Ok((pargs, p9)) => if pargs.len() != 1 {
                        Err(
                            Error::HeaderFormat {
                                line: (lw + 3) as u64,
                                fault: HeaderFault::Arity,
                            },
                        )
                    } else {
                        match spec_parse_u64(pargs[0]) {
                            None => Err(
                                Error::HeaderFormat {
                                    line: (lw + 3) as u64,
                                    fault: HeaderFault::Number,
                                },
                            ),
                            Some(num_points) => match spec_kv_line(s, p9, key_data()) {
                                Err(f) => Err(
                                    Error::HeaderFormat { line: (lw + 4) as u64, fault: f },
                                ),
                                Ok((dargs, p10)) => if dargs.len() != 1 {
                                    Err(
                                        Error::HeaderFormat {
                                            line: (lw + 4) as u64,
                                            fault: HeaderFault::Arity,
                                        },
                                    )
                                } else if dargs[0] != word_ascii() && dargs[0] != word_binary() {
                                    Err(
                                        Error::HeaderFormat {
                                            line: (lw + 4) as u64,
                                            fault: HeaderFault::Data,
                                        },
                                    )
                                } else {
                                    let fields = spec_zip_fields(names, kinds, counts);
                                    if model_point_bytes(fields) > usize::MAX {
                                        Err(
                                            Error::HeaderFormat {
                                                line: (lw + 4) as u64,
                                                fault: HeaderFault::Layout,
                                            },
                                        )
                                    } else {
                                        Ok(
                                            (
                                                MetaModel {
                                                    version: Seq::empty(),
                                                    fields,
                                                    width,
                                                    height,
                                                    viewpoint: vp,
                                                    num_points,
                                                    data: if dargs[0] == word_ascii() {
                                                        DataKind::Ascii
                                                    } else {
                                                        DataKind::Binary
                                                    },
                                                },
                                                p10,
                                            ),
                                        )
                                    }
                                },
                            },
                        }
                    },
                },
            }
        },
    }
}

/// The optional COUNT line, then the rest of the header.
pub open spec fn spec_after_types(
    s: Seq<u8>,
    pos: int,
    names: Seq<Seq<u8>>,
    kinds: Seq<ValueKind>,
) -> Result<(MetaModel, int), Error> {
    match spec_kv_line(s, pos, key_count()) {
        Ok((cargs, p5)) => if cargs.len() != names.len() {
            Err(Error::HeaderFormat { line: 5, fault: HeaderFault::Arity })
        } else {
            match spec_u64_list(cargs) {
                None => Err(Error::HeaderFormat { line: 5, fault: HeaderFault::Number }),
                Some(counts) => if any_zero(counts) {
                    Err(Error::HeaderFormat { line: 5, fault: HeaderFault::Layout })
                } else {
                    spec_header_tail(s, p5, 6, names, kinds, counts)
                },
            }
        },
        Err(_) => spec_header_tail(s, pos, 5, names, kinds, ones(names.len())),
    }
}

/// What header parsing yields on `s`: the metadata read and the position
/// of the first data byte, or the first fault with its 1-based line. The
/// required keys, in order: VERSION, FIELDS, SIZE, TYPE, an optional
/// COUNT, WIDTH, HEIGHT, VIEWPOINT, POINTS, DATA. The version text is
/// carried in the executable result and left free here.
pub open spec fn spec_parse_header(s: Seq<u8>) -> Result<(MetaModel, int), Error> {
    match spec_kv_line(s, 0, key_version()) {
        Err(f) => Err(Error::HeaderFormat { line: 1, fault: f }),
        Ok((vargs, p1)) => if vargs.len() != 1 {
            Err(Error::HeaderFormat { line: 1, fault: HeaderFault::Arity })
        } else {
            match spec_kv_line(s, p1, key_fields()) {
                Err(f) => Err(Error::HeaderFormat { line: 2, fault: f }),
                Ok((names, p2)) => if names.len() < 1 {
                    Err(Error::HeaderFormat { line: 2, fault: HeaderFault::Arity })
                } else {
                    match spec_kv_line(s, p2, key_size()) {
                        Err(f) => Err(Error::HeaderFormat { line: 3, fault: f }),
                        Ok((sargs, p3)) => if sargs.len() != names.len() {
                            Err(Error::HeaderFormat { line: 3, fault: HeaderFault::Arity })
                        } else {
                            match spec_u64_list(sargs) {
                                None => Err(
                                    Error::HeaderFormat { line: 3, fault: HeaderFault::Number },
                                ),
                                Some(sizes) => match spec_kv_line(s, p3, key_type()) {
                                    Err(f) => Err(Error::HeaderFormat { line: 4, fault: f }),
                                    Ok((targs, p4)) => if targs.len() != names.len() {
                                        Err(
                                            Error::HeaderFormat {
                                                line: 4,
                                                fault: HeaderFault::Arity,
                                            },
                                        )
                                    } else {
                                        match spec_type_list(targs) {
                                            None => Err(
                                                Error::HeaderFormat {
                                                    line: 4,
                                                    fault: HeaderFault::Type,
                                                },
                                            ),
                                            Some(types) => match spec_kind_list(types, sizes) {
                                                None => Err(
                                                    Error::HeaderFormat {
                                                        line: 4,
                                                        fault: HeaderFault::Type,
                                                    },
                                                ),
                                                Some(kinds) => {
                                                    let m = spec_after_types(s, p4, names, kinds);
                                                    match m {
                                                        Ok((mm, pp)) => Ok(
                                                            (
                                                                MetaModel {
                                                                    version: vargs[0],
                                                                    ..mm
                                                                },
                                                                pp,
                                                            ),
                                                        ),
                                                        Err(e) => Err(e),
                                                    }
                                                },
                                            },
                                        }
                                    },
                                },
                            }
                        },
                    }
                },
            }
        },
    }
}

fn bytes_eq(a: &Vec<u8>, b: &Vec<u8>) -> (r: bool)
    ensures
        r == (a@ == b@),
{
    let n = a.len();
    if n != b.len() {
        proof {
            assert(a@.len() != b@.len());
        }
        return false;
    }
    let mut i: usize = 0;
    while i < n
        invariant
            0 <= i <= n,
            n == a@.len(),
            n == b@.len(),
            forall|m: int| 0 <= m < i ==> a@[m] == b@[m],
        decreases n - i,
    {
        if a[i] != b[i] {
            return false;
        }
        i = i + 1;
    }
    proof {
        assert(a@ =~= b@);
    }
    true
}

pub(crate) fn key_version_vec() -> (v: Vec<u8>)
    ensures
        v@ == key_version(),
{
    let v = vec![86u8, 69u8, 82u8, 83u8, 73u8, 79u8, 78u8];
    proof {
        assert(v@ =~= key_version());
    }
    v
}

pub(crate) fn key_fields_vec() -> (v: Vec<u8>)
    ensures
        v@ == key_fields(),
{
    let v = vec![70u8, 73u8, 69u8, 76u8, 68u8, 83u8];
    proof {
        assert(v@ =~= key_fields());
    }
    v
}

pub(crate) fn key_size_vec() -> (v: Vec<u8>)
    ensures
        v@ == key_size(),
{
    let v = vec![83u8, 73u8, 90u8, 69u8];
    proof {
        assert(v@ =~= key_size());
    }
    v
}

pub(crate) fn key_type_vec() -> (v: Vec<u8>)
    ensures
        v@ == key_type(),
{
    let v = vec![84u8, 89u8, 80u8, 69u8];
    proof {
        assert(v@ =~= key_type());
    }
    v
}

pub(crate) fn key_count_vec() -> (v: Vec<u8>)
    ensures
        v@ == key_count(),
{
    let v = vec![67u8, 79u8, 85u8, 78u8, 84u8];
    proof {
        assert(v@ =~= key_count());
    }
    v
}

pub(crate) fn key_width_vec() -> (v: Vec<u8>)
    ensures
        v@ == key_width(),
{
    let v = vec![87u8, 73u8, 68u8, 84u8, 72u8];
    proof {
        assert(v@ =~= key_width());
    }
    v
}

pub(crate) fn key_height_vec() -> (v: Vec<u8>)
    ensures
        v@ == key_height(),
{
    let v = vec![72u8, 69u8, 73u8, 71u8, 72u8, 84u8];
    proof {
        assert(v@ =~= key_height());
    }
    v
}

pub(crate) fn key_viewpoint_vec() -> (v: Vec<u8>)
    ensures
        v@ == key_viewpoint(),
{
    let v = vec![86u8, 73u8, 69u8, 87u8, 80u8, 79u8, 73u8, 78u8, 84u8];
    proof {
        assert(v@ =~= key_viewpoint());
    }
    v
}

pub(crate) fn key_points_vec() -> (v: Vec<u8>)
    ensures
        v@ == key_points(),
{
    let v = vec![80u8, 79u8, 73u8, 78u8, 84u8, 83u8];
    proof {
        assert(v@ =~= key_points());
    }
    v
}

pub(crate) fn key_data_vec() -> (v: Vec<u8>)
    ensures
        v@ == key_data(),
{
    let v = vec![68u8, 65u8, 84u8, 65u8];
    proof {
        assert(v@ =~= key_data());
    }
    v
}

pub(crate) fn word_ascii_vec() -> (v: Vec<u8>)
    ensures
        v@ == word_ascii(),
{
    let v = vec![97u8, 115u8, 99u8, 105u8, 105u8];
    proof {
        assert(v@ =~= word_ascii());
    }
    v
}

pub(crate) fn word_binary_vec() -> (v: Vec<u8>)
    ensures
        v@ == word_binary(),
{
    let v = vec![98u8, 105u8, 110u8, 97u8, 114u8, 121u8];
    proof {
        assert(v@ =~= word_binary());
    }
    v
}

fn read_kv_line(data: &Vec<u8>, pos: usize, key: &Vec<u8>) -> (res: Result<
    (Vec<Vec<u8>>, usize),
    HeaderFault,
>)
    requires
        pos <= data@.len(),
    ensures
        match res {
            Ok((args, next)) => spec_kv_line(data@, pos as int, key@) == Ok::<_, HeaderFault>(
                (args@.map_values(|t: Vec<u8>| t@), next as int),
            ) && next <= data@.len(),
            Err(f) => spec_kv_line(data@, pos as int, key@) == Err::<(Seq<Seq<u8>>, int), _>(f),
        },
{
    let n = data.len();
    if pos >= n {
        return Err(HeaderFault::Missing);
    }
    let e = find_newline(data, pos);
    proof {
        lemma_find_nl(data@, pos as int);
    }
    let line = subvec(data, pos, e);
    let toks = split_tokens(&line);
    let next = if e < n {
        e + 1
    } else {
        e
    };
    let m = toks.len();
    if m == 0 {
        return Err(HeaderFault::Key);
    }
    if !bytes_eq(&toks[0], key) {
        proof {
            assert(tokens_of(line@)[0] == toks@[0]@);
        }
        return Err(HeaderFault::Key);
    }
    let ghost tv = toks@.map_values(|t: Vec<u8>| t@);
    let mut args: Vec<Vec<u8>> = Vec::new();
    let mut i: usize = 1;
    while i < m
        invariant
            1 <= i <= m,
            m == toks@.len(),
            tv == toks@.map_values(|t: Vec<u8>| t@),
            args@.map_values(|t: Vec<u8>| t@) == tv.subrange(1, i as int),
        decreases m - i,
    {
        let t = toks[i].clone();
        let ghost before = args@.map_values(|t: Vec<u8>| t@);
        args.push(t);
        proof {
            assert(args@.map_values(|t: Vec<u8>| t@) =~= before.push(tv[i as int]));
            assert(tv.subrange(1, i + 1) =~= tv.subrange(1, i as int).push(tv[i as int]));
        }
        i = i + 1;
    }
    proof {
        assert(tv.subrange(1, m as int) =~= tv.skip(1));
        assert(tv[0] == key@);
    }
    Ok((args, next))
}

fn parse_u64_list_exec(ts: &Vec<Vec<u8>>, from: usize) -> (res: Option<Vec<u64>>)
    requires
        from <= ts@.len(),
    ensures
        ({
            let tv = ts@.map_values(|t: Vec<u8>| t@).skip(from as int);
            match res {
                Some(v) => spec_u64_list(tv) == Some(v@),
                None => spec_u64_list(tv) is None,
            }
        }),
    decreases ts@.len() - from,
{
    let ghost tv = ts@.map_values(|t: Vec<u8>| t@).skip(from as int);
    let n = ts.len();
    if from >= n {
        let v: Vec<u64> = Vec::new();
        proof {
            assert(tv.len() == 0);
        }
        Some(v)
    } else {
        proof {
            assert(tv[0] == ts@[from as int]@);
            assert(tv.skip(1) =~= ts@.map_values(|t: Vec<u8>| t@).skip(from + 1));
        }
        match crate::decimal::parse_u64_token(&ts[from]) {
            None => None,
            Some(x) => match parse_u64_list_exec(ts, from + 1) {
                None => None,
                Some(mut v) => {
                    let ghost before = v@;
                    v.insert(0, x);
                    proof {
                        assert(v@ =~= seq![x] + before);
                    }
                    Some(v)
                },
            },
        }
    }
}

fn parse_type_list_exec(ts: &Vec<Vec<u8>>, from: usize) -> (res: Option<Vec<TypeKind>>)
    requires
        from <= ts@.len(),
    ensures
        ({
            let tv = ts@.map_values(|t: Vec<u8>| t@).skip(from as int);
            match res {
                Some(v) => spec_type_list(tv) == Some(v@),
                None => spec_type_list(tv) is None,
            }
        }),
    decreases ts@.len() - from,
{
    let ghost tv = ts@.map_values(|t: Vec<u8>| t@).skip(from as int);
    let n = ts.len();
    if from >= n {
        let v: Vec<TypeKind> = Vec::new();
        proof {
            assert(tv.len() == 0);
        }
        Some(v)
    } else {
        proof {
            assert(tv[0] == ts@[from as int]@);
            assert(tv.skip(1) =~= ts@.map_values(|t: Vec<u8>| t@).skip(from + 1));
        }
        let t = &ts[from];
        let code: Option<TypeKind> = if t.len() == 1 && t[0] == 73 {
            Some(TypeKind::I)
        } else if t.len() == 1 && t[0] == 85 {
            Some(TypeKind::U)
        } else if t.len() == 1 && t[0] == 70 {
            Some(TypeKind::F)
        } else {
            None
        };
        proof {
            assert(code == spec_type_code(tv[0]));
        }
        match code {
            None => None,
            Some(x) => match parse_type_list_exec(ts, from + 1) {
                None => None,
                Some(mut v) => {
                    let ghost before = v@;
                    v.insert(0, x);
                    proof {
                        assert(v@ =~= seq![x] + before);
                    }
                    Some(v)
                },
            },
        }
    }
}

fn parse_f64_list_exec(ts: &Vec<Vec<u8>>, from: usize) -> (res: Option<Vec<u64>>)
    requires
        from <= ts@.len(),
    ensures
        ({
            let tv = ts@.map_values(|t: Vec<u8>| t@).skip(from as int);
            match res {
                Some(v) => spec_f64_list(tv) == Some(v@) && v@.len() == tv.len(),
                None => spec_f64_list(tv) is None,
            }
        }),
    decreases ts@.len() - from,
{
    let ghost tv = ts@.map_values(|t: Vec<u8>| t@).skip(from as int);
    let n = ts.len();
    if from >= n {
        let v: Vec<u64> = Vec::new();
        proof {
            assert(tv.len() == 0);
        }
        Some(v)
    } else {
        proof {
            assert(tv[0] == ts@[from as int]@);
            assert(tv.skip(1) =~= ts@.map_values(|t: Vec<u8>| t@).skip(from + 1));
        }
        match crate::float_text::parse_f64_ascii(&ts[from]) {
            None => None,
            Some(x) => match parse_f64_list_exec(ts, from + 1) {
                None => None,
                Some(mut v) => {
                    let ghost before = v@;
                    v.insert(0, x);
                    proof {
                        assert(v@ =~= seq![x] + before);
                    }
                    Some(v)
                },
            },
        }
    }
}

fn kind_list_exec(types: &Vec<TypeKind>, sizes: &Vec<u64>, from: usize) -> (res: Option<
    Vec<ValueKind>,
>)
    requires
        types@.len() == sizes@.len(),
        from <= types@.len(),
    ensures
        ({
            match res {
                Some(v) => spec_kind_list(types@.skip(from as int), sizes@.skip(from as int))
                    == Some(v@),
                None => spec_kind_list(types@.skip(from as int), sizes@.skip(from as int))
                    is None,
            }
        }),
    decreases types@.len() - from,
{
    let n = types.len();
    if from >= n {
        let v: Vec<ValueKind> = Vec::new();
        Some(v)
    } else {
        proof {
            assert(types@.skip(from as int)[0] == types@[from as int]);
            assert(sizes@.skip(from as int)[0] == sizes@[from as int]);
            assert(types@.skip(from as int).skip(1) =~= types@.skip(from + 1));
            assert(sizes@.skip(from as int).skip(1) =~= sizes@.skip(from + 1));
        }
        match ValueKind::from_code(types[from], sizes[from]) {
            None => None,
            Some(k) => match kind_list_exec(types, sizes, from + 1) {
                None => None,
                Some(mut v) => {
                    let ghost before = v@;
                    v.insert(0, k);
                    proof {
                        assert(v@ =~= seq![k] + before);
                    }
                    Some(v)
                },
            },
        }
    }
}

/// The descriptor a parsed field list places at each position.
pub proof fn lemma_zip_index(
    names: Seq<Seq<u8>>,
    kinds: Seq<ValueKind>,
    counts: Seq<u64>,
    i: int,
)
    requires
        names.len() == kinds.len(),
        names.len() == counts.len(),
        0 <= i < names.len(),
    ensures
        spec_zip_fields(names, kinds, counts).len() == names.len(),
        spec_zip_fields(names, kinds, counts)[i] == (FieldModel {
            name: names[i],
            kind: kinds[i],
            count: counts[i],
        }),
    decreases i,
{
    lemma_zip_len(names, kinds, counts);
    if i > 0 {
        lemma_zip_index(names.skip(1), kinds.skip(1), counts.skip(1), i - 1);
    }
}

pub proof fn lemma_zip_len(names: Seq<Seq<u8>>, kinds: Seq<ValueKind>, counts: Seq<u64>)
    ensures
        spec_zip_fields(names, kinds, counts).len() == names.len(),
    decreases names.len(),
{
    if names.len() > 0 {
        lemma_zip_len(names.skip(1), kinds.skip(1), counts.skip(1));
    }
}

fn zip_fields_exec(
    names: &Vec<Vec<u8>>,
    kinds: &Vec<ValueKind>,
    counts: &Vec<u64>,
    from: usize,
) -> (res: Vec<FieldDef>)
    requires
        names@.len() == kinds@.len(),
        names@.len() == counts@.len(),
        from <= names@.len(),
    ensures
        res@.len() == names@.len() - from,
        res@.map_values(|d: FieldDef| FieldModel { name: d.name@, kind: d.kind, count: d.count })
            == spec_zip_fields(
            names@.map_values(|t: Vec<u8>| t@).skip(from as int),
            kinds@.skip(from as int),
            counts@.skip(from as int),
        ),
    decreases names@.len() - from,
{
    let ghost nv = names@.map_values(|t: Vec<u8>| t@).skip(from as int);
    let n = names.len();
    if from >= n {
        let v: Vec<FieldDef> = Vec::new();
        proof {
            assert(nv.len() == 0);
            assert(v@.map_values(
                |d: FieldDef| FieldModel { name: d.name@, kind: d.kind, count: d.count },
            ) =~= spec_zip_fields(nv, kinds@.skip(from as int), counts@.skip(from as int)));
        }
        v
    } else {
        proof {
            assert(nv[0] == names@[from as int]@);
            assert(nv.skip(1) =~= names@.map_values(|t: Vec<u8>| t@).skip(from + 1));
            assert(kinds@.skip(from as int)[0] == kinds@[from as int]);
            assert(counts@.skip(from as int)[0] == counts@[from as int]);
            assert(kinds@.skip(from as int).skip(1) =~= kinds@.skip(from + 1));
            assert(counts@.skip(from as int).skip(1) =~= counts@.skip(from + 1));
        }
        let d = FieldDef { name: names[from].clone(), kind: kinds[from], count: counts[from] };
        let mut v = zip_fields_exec(names, kinds, counts, from + 1);
        let ghost before = v@.map_values(
            |d: FieldDef| FieldModel { name: d.name@, kind: d.kind, count: d.count },
        );
        v.insert(0, d);
        proof {
            assert(v@.map_values(
                |d: FieldDef| FieldModel { name: d.name@, kind: d.kind, count: d.count },
            ) =~= seq![
                FieldModel { name: names@[from as int]@, kind: kinds@[from as int], count: counts@[from as int] },
            ] + before);
        }
        v
    }
}

/// A parsed field list and the descriptors built from it lay out the
/// same number of bytes per point.
pub proof fn lemma_model_point_bytes(fs: Seq<FieldDef>)
    ensures
        model_point_bytes(
            fs.map_values(|d: FieldDef| FieldModel { name: d.name@, kind: d.kind, count: d.count }),
        ) == crate::metas::spec_point_bytes(fs),
    decreases fs.len(),
{
    let m = fs.map_values(
        |d: FieldDef| FieldModel { name: d.name@, kind: d.kind, count: d.count },
    );
    if fs.len() > 0 {
        lemma_model_point_bytes(fs.drop_last());
        assert(m.drop_last() =~= fs.drop_last().map_values(
            |d: FieldDef| FieldModel { name: d.name@, kind: d.kind, count: d.count },
        ));
        assert(m.last() == (FieldModel {
            name: fs.last().name@,
            kind: fs.last().kind,
            count: fs.last().count,
        }));
    } else {
        assert(m.len() == 0);
    }
}

pub(crate) fn check_layout(fields: &Vec<FieldDef>) -> (ok: bool)
    ensures
        ok == (crate::metas::spec_point_bytes(fields@) <= usize::MAX),
{
    let n = fields.len();
    let mut acc: u128 = 0;
    let mut i: usize = 0;
    while i < n
        invariant
            0 <= i <= n,
            n == fields@.len(),
            acc == crate::metas::spec_point_bytes(fields@.take(i as int)),
            acc <= usize::MAX as u128,
        decreases n - i,
    {
        let d = &fields[i];
        let w = d.kind.width();
        proof {
            assert((d.count as u128) * (w as u128) <= 0xffff_ffff_ffff_ffffu128 * 8)
                by (nonlinear_arith)
                requires d.count <= 0xffff_ffff_ffff_ffffu64, w <= 8;
            assert(fields@.take(i + 1).drop_last() =~= fields@.take(i as int));
            assert(fields@.take(i + 1).last() == fields@[i as int]);
        }
        let term: u128 = (d.count as u128) * (w as u128);
        let acc2: u128 = acc + term;
        if acc2 > usize::MAX as u128 {
            proof {
                crate::metas::lemma_point_bytes_prefix_le(fields@, i + 1);
            }
            return false;
        }
        acc = acc2;
        i = i + 1;
    }
    proof {
        assert(fields@.take(n as int) =~= fields@);
    }
    true
}

fn any_zero_exec(counts: &Vec<u64>) -> (b: bool)
    ensures
        b == any_zero(counts@),
{
    let n = counts.len();
    let mut i: usize = 0;
    while i < n
        invariant
            0 <= i <= n,
            n == counts@.len(),
            forall|m: int| 0 <= m < i ==> counts@[m] != 0,
        decreases n - i,
    {
        if counts[i] == 0 {
            return true;
        }
        i = i + 1;
    }
    false
}

/// Parses a header from the front of `data`. On success the metadata is
/// exactly what `spec_parse_header` reads and the returned position is
/// the first byte of the data section; on failure the error is exactly
/// the fault `spec_parse_header` reports.
pub fn parse_header(data: &Vec<u8>) -> (res: Result<(PcdMeta, usize), Error>)
    ensures
        match res {
            Ok((m, pos)) => spec_parse_header(data@) == Ok::<_, Error>(
                (meta_model(m), pos as int),
            ) && m.wf() && pos <= data@.len(),
            Err(e) => spec_parse_header(data@) == Err::<(MetaModel, int), _>(e),
        },
{
    let kv = key_version_vec();
    let (vargs, p1) = match read_kv_line(data, 0, &kv) {
        Err(f) => {
            return Err(Error::HeaderFormat { line: 1, fault: f });
        },
        Ok(x) => x,
    };
    if vargs.len() != 1 {
        return Err(Error::HeaderFormat { line: 1, fault: HeaderFault::Arity });
    }
    let kf = key_fields_vec();
    let (nargs, p2) = match read_kv_line(data, p1, &kf) {
        Err(f) => {
            return Err(Error::HeaderFormat { line: 2, fault: f });
        },
        Ok(x) => x,
    };
    if nargs.len() < 1 {
        return Err(Error::HeaderFormat { line: 2, fault: HeaderFault::Arity });
    }
    let ks = key_size_vec();
    let (sargs, p3) = match read_kv_line(data, p2, &ks) {
        Err(f) => {
            return Err(Error::HeaderFormat { line: 3, fault: f });
        },
        Ok(x) => x,
    };
    if sargs.len() != nargs.len() {
        return Err(Error::HeaderFormat { line: 3, fault: HeaderFault::Arity });
    }
    proof {
        assert(sargs@.map_values(|t: Vec<u8>| t@).skip(0) =~= sargs@.map_values(
            |t: Vec<u8>| t@,
        ));
    }
    let sizes = match parse_u64_list_exec(&sargs, 0) {
        None => {
            return Err(Error::HeaderFormat { line: 3, fault: HeaderFault::Number });
        },
        Some(x) => x,
    };
    let kt = key_type_vec();
    let (targs, p4) = match read_kv_line(data, p3, &kt) {
        Err(f) => {
            return Err(Error::HeaderFormat { line: 4, fault: f });
        },
        Ok(x) => x,
    };
    if targs.len() != nargs.len() {
        return Err(Error::HeaderFormat { line: 4, fault: HeaderFault::Arity });
    }
    proof {
        assert(targs@.map_values(|t: Vec<u8>| t@).skip(0) =~= targs@.map_values(
            |t: Vec<u8>| t@,
        ));
    }
    let types = match parse_type_list_exec(&targs, 0) {
        None => {
            return Err(Error::HeaderFormat { line: 4, fault: HeaderFault::Type });
        },
        Some(x) => x,
    };
    proof {
        lemma_spec_list_lens(sargs@.map_values(|t: Vec<u8>| t@), targs@.map_values(
            |t: Vec<u8>| t@,
        ), sizes@, types@);
        assert(types@.skip(0) =~= types@);
        assert(sizes@.skip(0) =~= sizes@);
    }
    let kinds = match kind_list_exec(&types, &sizes, 0) {
        None => {
            return Err(Error::HeaderFormat { line: 4, fault: HeaderFault::Type });
        },
        Some(x) => x,
    };
    let kc = key_count_vec();
    let (counts, pw, lw): (Vec<u64>, usize, u64) = match read_kv_line(data, p4, &kc) {
        Ok((cargs, p5)) => {
            if cargs.len() != nargs.len() {
                return Err(Error::HeaderFormat { line: 5, fault: HeaderFault::Arity });
            }
            proof {
                assert(cargs@.map_values(|t: Vec<u8>| t@).skip(0) =~= cargs@.map_values(
                    |t: Vec<u8>| t@,
                ));
            }
            let cs = match parse_u64_list_exec(&cargs, 0) {
                None => {
                    return Err(Error::HeaderFormat { line: 5, fault: HeaderFault::Number });
                },
                Some(x) => x,
            };
            if any_zero_exec(&cs) {
                return Err(Error::HeaderFormat { line: 5, fault: HeaderFault::Layout });
            }
            proof {
                lemma_u64_list_len(cargs@.map_values(|t: Vec<u8>| t@), cs@);
            }
            (cs, p5, 6)
        },
        Err(_) => {
            let cs = ones_vec(nargs.len());
            (cs, p4, 5)
        },
    };
    proof {
        lemma_kind_list_len(types@, sizes@, kinds@);
        assert(counts@.len() == nargs@.len());
        assert(forall|i: int| 0 <= i < counts@.len() ==> #[trigger] counts@[i] >= 1);
    }
    let r = finish_header(data, pw, lw, &vargs, &nargs, &kinds, &counts);
    proof {
        let names = nargs@.map_values(|t: Vec<u8>| t@);
        let tail = spec_header_tail(data@, pw as int, lw, names, kinds@, counts@);
        if r is Ok {
            let (m, pos) = r->Ok_0;
            assert(meta_model(m) == (MetaModel {
                version: vargs@.map_values(|t: Vec<u8>| t@)[0],
                ..(MetaModel { version: Seq::empty(), ..meta_model(m) })
            }));
        }
    }
    r
}

/// The length facts the zip step needs, pulled from the list specs.
proof fn lemma_spec_list_lens(
    sts: Seq<Seq<u8>>,
    tts: Seq<Seq<u8>>,
    sizes: Seq<u64>,
    types: Seq<TypeKind>,
)
    requires
        spec_u64_list(sts) == Some(sizes),
        spec_type_list(tts) == Some(types),
    ensures
        sizes.len() == sts.len(),
        types.len() == tts.len(),
{
    lemma_u64_list_len(sts, sizes);
    lemma_type_list_len(tts, types);
}

proof fn lemma_u64_list_len(ts: Seq<Seq<u8>>, v: Seq<u64>)
    requires
        spec_u64_list(ts) == Some(v),
    ensures
        v.len() == ts.len(),
    decreases ts.len(),
{
    if ts.len() > 0 {
        let rest = spec_u64_list(ts.skip(1))->Some_0;
        lemma_u64_list_len(ts.skip(1), rest);
    }
}

proof fn lemma_type_list_len(ts: Seq<Seq<u8>>, v: Seq<TypeKind>)
    requires
        spec_type_list(ts) == Some(v),
    ensures
        v.len() == ts.len(),
    decreases ts.len(),
{
    if ts.len() > 0 {
        let rest = spec_type_list(ts.skip(1))->Some_0;
        lemma_type_list_len(ts.skip(1), rest);
    }
}

proof fn lemma_kind_list_len(types: Seq<TypeKind>, sizes: Seq<u64>, v: Seq<ValueKind>)
    requires
        spec_kind_list(types, sizes) == Some(v),
    ensures
        v.len() == types.len(),
    decreases types.len(),
{
    if types.len() > 0 {
        let rest = spec_kind_list(types.skip(1), sizes.skip(1))->Some_0;
        lemma_kind_list_len(types.skip(1), sizes.skip(1), rest);
    }
}

fn finish_header(
    data: &Vec<u8>,
    pw: usize,
    lw: u64,
    vargs: &Vec<Vec<u8>>,
    nargs: &Vec<Vec<u8>>,
    kinds: &Vec<ValueKind>,
    counts: &Vec<u64>,
) -> (res: Result<(PcdMeta, usize), Error>)
    requires
        pw <= data@.len(),
        5 <= lw <= 6,
        vargs@.len() == 1,
        nargs@.len() >= 1,
        kinds@.len() == nargs@.len(),
        counts@.len() == nargs@.len(),
        forall|i: int| 0 <= i < counts@.len() ==> #[trigger] counts@[i] >= 1,
    ensures
        ({
            let names = nargs@.map_values(|t: Vec<u8>| t@);
            let tail = spec_header_tail(data@, pw as int, lw, names, kinds@, counts@);
            match res {
                Ok((m, pos)) => tail == Ok::<_, Error>(
                    (MetaModel { version: Seq::empty(), ..meta_model(m) }, pos as int),
                ) && meta_model(m).version == vargs@.map_values(|t: Vec<u8>| t@)[0] && m.wf()
                    && pos <= data@.len(),
                Err(e) => tail == Err::<(MetaModel, int), _>(e),
            }
        }),
{
    let ghost names = nargs@.map_values(|t: Vec<u8>| t@);
    let kw = key_width_vec();
    let (wargs, p6) = match read_kv_line(data, pw, &kw) {
        Err(f) => {
            return Err(Error::HeaderFormat { line: lw, fault: f });
        },
        Ok(x) => x,
    };
    if wargs.len() != 1 {
        return Err(Error::HeaderFormat { line: lw, fault: HeaderFault::Arity });
    }
    proof {
        assert(wargs@.map_values(|t: Vec<u8>| t@)[0] == wargs@[0]@);
    }
    let width = match crate::decimal::parse_u64_token(&wargs[0]) {
        None => {
            return Err(Error::HeaderFormat { line: lw, fault: HeaderFault::Number });
        },
        Some(x) => x,
    };
    let kh = key_height_vec();
    let (hargs, p7) = match read_kv_line(data, p6, &kh) {
        Err(f) => {
            return Err(Error::HeaderFormat { line: lw + 1, fault: f });
        },
        Ok(x) => x,
    };
    if hargs.len() != 1 {
        return Err(Error::HeaderFormat { line: lw + 1, fault: HeaderFault::Arity });
    }
    proof {
        assert(hargs@.map_values(|t: Vec<u8>| t@)[0] == hargs@[0]@);
    }
    let height = match crate::decimal::parse_u64_token(&hargs[0]) {
        None => {
            return Err(Error::HeaderFormat { line: lw + 1, fault: HeaderFault::Number });
        },
        Some(x) => x,
    };
    let kvp = key_viewpoint_vec();
    let (vpargs, p8) = match read_kv_line(data, p7, &kvp) {
        Err(f) => {
            return Err(Error::HeaderFormat { line: lw + 2, fault: f });
        },
        Ok(x) => x,
    };
    if vpargs.len() != 7 {
        return Err(Error::HeaderFormat { line: lw + 2, fault: HeaderFault::Arity });
    }
    proof {
        assert(vpargs@.map_values(|t: Vec<u8>| t@).skip(0) =~= vpargs@.map_values(
            |t: Vec<u8>| t@,
        ));
    }
    let vp = match parse_f64_list_exec(&vpargs, 0) {
        None => {
            return Err(Error::HeaderFormat { line: lw + 2, fault: HeaderFault::Float });
        },
        Some(x) => x,
    };
    let kp = key_points_vec();
    let (pargs, p9) = match read_kv_line(data, p8, &kp) {
        Err(f) => {
            return Err(Error::HeaderFormat { line: lw + 3, fault: f });
        },
        Ok(x) => x,
    };
    if pargs.len() != 1 {
        return Err(Error::HeaderFormat { line: lw + 3, fault: HeaderFault::Arity });
    }
    proof {
        assert(pargs@.map_values(|t: Vec<u8>| t@)[0] == pargs@[0]@);
    }
    let num_points = match crate::decimal::parse_u64_token(&pargs[0]) {
        None => {
            return Err(Error::HeaderFormat { line: lw + 3, fault: HeaderFault::Number });
        },
        Some(x) => x,
    };
    let kd = key_data_vec();
    let (dargs, p10) = match read_kv_line(data, p9, &kd) {
        Err(f) => {
            return Err(Error::HeaderFormat { line: lw + 4, fault: f });
        },
        Ok(x) => x,
    };
    if dargs.len() != 1 {
        return Err(Error::HeaderFormat { line: lw + 4, fault: HeaderFault::Arity });
    }
    proof {
        assert(dargs@.map_values(|t: Vec<u8>| t@)[0] == dargs@[0]@);
    }
    let wa = word_ascii_vec();
    let wb = word_binary_vec();
    let is_ascii = bytes_eq(&dargs[0], &wa);
    let is_binary = bytes_eq(&dargs[0], &wb);
    if !is_ascii && !is_binary {
        return Err(Error::HeaderFormat { line: lw + 4, fault: HeaderFault::Data });
    }
    let fields = zip_fields_exec(nargs, kinds, counts, 0);
    proof {
        assert(names.skip(0) =~= names);
        assert(kinds@.skip(0) =~= kinds@);
        assert(counts@.skip(0) =~= counts@);
        lemma_model_point_bytes(fields@);
    }
    if !check_layout(&fields) {
        return Err(Error::HeaderFormat { line: lw + 4, fault: HeaderFault::Layout });
    }
    let schema = Schema { fields };
    let m = PcdMeta {
        version: vargs[0].clone(),
        width,
        height,
        viewpoint: ViewPoint {
            tx: vp[0],
            ty: vp[1],
            tz: vp[2],
            qw: vp[3],
            qx: vp[4],
            qy: vp[5],
            qz: vp[6],
        },
        num_points,
        data: if is_ascii {
            DataKind::Ascii
        } else {
            DataKind::Binary
        },
        field_defs: schema,
    };
    proof {
        let mm = meta_model(m);
        assert(mm.viewpoint =~= vp@);
        assert(mm.fields =~= spec_zip_fields(names, kinds@, counts@));
        assert(m.wf()) by {
            lemma_zip_len(names, kinds@, counts@);
            assert(m.field_defs.fields@.len() == names.len());
            assert forall|i: int| 0 <= i < m.field_defs.fields@.len() implies #[trigger] m
                .field_defs.fields@[i].count >= 1 by {
                lemma_zip_index(names, kinds@, counts@, i);
                assert(mm.fields[i] == (FieldModel {
                    name: names[i],
                    kind: kinds@[i],
                    count: counts@[i],
                }));
                assert(mm.fields[i].count == m.field_defs.fields@[i].count);
            }
        }
    }
    Ok((m, p10))
}

fn ones_vec(n: usize) -> (v: Vec<u64>)
    ensures
        v@ == ones(n as nat),
{
    let mut v: Vec<u64> = Vec::new();
    let mut i: usize = 0;
    while i < n
        invariant
            0 <= i <= n,
            v@ =~= ones(i as nat),
        decreases n - i,
    {
        v.push(1);
        proof {
            assert(v@ =~= ones((i + 1) as nat));
        }
        i = i + 1;
    }
    v
}

} // verus!
