use vstd::prelude::*;

use crate::codec::{check_record, encode_record_ascii, encode_record_bin, push_joined};
use crate::decimal::dec_digits;
use crate::error::Error;
use crate::float_text::ascii_of_f64_bits;
use crate::header::{
    check_layout, key_count, key_data, key_fields, key_height, key_points, key_size, key_type,
    key_version, key_viewpoint, key_width, word_ascii, word_binary,
};
use crate::metas::{DataKind, FieldDef, PcdMeta, Schema, TypeKind, ValueKind, ViewPoint};
use crate::record::{bin_of_record, record_matches, record_raws, toks_of_record, DynRecord};
use crate::tokens::{join_sp, wf_token};

verus! {

/// One header line: the tokens joined by spaces, ended by a newline.
pub open spec fn line_of(toks: Seq<Seq<u8>>) -> Seq<u8> {
    join_sp(toks) + seq![10u8]
}

pub open spec fn spec_name_toks(fs: Seq<FieldDef>) -> Seq<Seq<u8>> {
    fs.map_values(|d: FieldDef| d.name@)
}

pub open spec fn spec_size_toks(fs: Seq<FieldDef>) -> Seq<Seq<u8>> {
    fs.map_values(|d: FieldDef| dec_digits(d.kind.spec_width()))
}

pub open spec fn spec_type_tok(k: ValueKind) -> Seq<u8> {
    match k.spec_type_kind() {
        TypeKind::I => seq![73u8],
        TypeKind::U => seq![85u8],
        TypeKind::F => seq![70u8],
    }
}

pub open spec fn spec_type_toks(fs: Seq<FieldDef>) -> Seq<Seq<u8>> {
    fs.map_values(|d: FieldDef| spec_type_tok(d.kind))
}

pub open spec fn spec_count_toks(fs: Seq<FieldDef>) -> Seq<Seq<u8>> {
    fs.map_values(|d: FieldDef| dec_digits(d.count as nat))
}

pub open spec fn spec_viewpoint_toks(v: ViewPoint) -> Seq<Seq<u8>> {
    seq![
        ascii_of_f64_bits(v.tx),
        ascii_of_f64_bits(v.ty),
        ascii_of_f64_bits(v.tz),
        ascii_of_f64_bits(v.qw),
        ascii_of_f64_bits(v.qx),
        ascii_of_f64_bits(v.qy),
        ascii_of_f64_bits(v.qz),
    ]
}

/// The text header that serializes a metadata value: the ten canonical
/// lines, in order, COUNT always written.
pub open spec fn header_bytes(m: PcdMeta) -> Seq<u8> {
    let fs = m.field_defs.fields@;
    line_of(seq![key_version()] + seq![m.version@]) + line_of(
        seq![key_fields()] + spec_name_toks(fs),
    ) + line_of(seq![key_size()] + spec_size_toks(fs)) + line_of(
        seq![key_type()] + spec_type_toks(fs),
    ) + line_of(seq![key_count()] + spec_count_toks(fs)) + line_of(
        seq![key_width()] + seq![dec_digits(m.width as nat)],
    ) + line_of(seq![key_height()] + seq![dec_digits(m.height as nat)]) + line_of(
        seq![key_viewpoint()] + spec_viewpoint_toks(m.viewpoint),
    ) + line_of(seq![key_points()] + seq![dec_digits(m.num_points as nat)]) + line_of(
        seq![key_data()] + seq![
            if m.data == DataKind::Ascii {
                word_ascii()
            } else {
                word_binary()
            },
        ],
    )
}

fn push_line(out: &mut Vec<u8>, toks: &Vec<Vec<u8>>)
    ensures
        final(out)@ == old(out)@ + line_of(toks@.map_values(|t: Vec<u8>| t@)),
{
    proof {
        assert(toks@.map_values(|t: Vec<u8>| t@).skip(0) =~= toks@.map_values(
            |t: Vec<u8>| t@,
        ));
    }
    push_joined(out, toks, 0);
    out.push(10);
    proof {
        assert(out@ =~= old(out)@ + (join_sp(toks@.map_values(|t: Vec<u8>| t@)) + seq![10u8]));
    }
}

/// Tokens for one header line: the key, then the given argument tokens.
fn keyed(key: Vec<u8>, args: Vec<Vec<u8>>) -> (r: Vec<Vec<u8>>)
    ensures
        r@.map_values(|t: Vec<u8>| t@) == seq![key@] + args@.map_values(|t: Vec<u8>| t@),
{
    let ghost keyv = key@;
    let ghost argsv = args@.map_values(|t: Vec<u8>| t@);
    let mut r = args;
    r.insert(0, key);
    proof {
        assert(r@.map_values(|t: Vec<u8>| t@) =~= seq![keyv] + argsv);
    }
    r
}

fn fmt_u64_vec(n: u64) -> (v: Vec<u8>)
    ensures
        v@ == dec_digits(n as nat),
{
    let mut v: Vec<u8> = Vec::new();
    crate::decimal::push_u64_text(&mut v, n);
    proof {
        assert(v@ =~= dec_digits(n as nat));
    }
    v
}

fn name_toks_exec(fields: &Vec<FieldDef>) -> (r: Vec<Vec<u8>>)
    ensures
        r@.map_values(|t: Vec<u8>| t@) == spec_name_toks(fields@),
{
    let n = fields.len();
    let mut r: Vec<Vec<u8>> = Vec::new();
    let mut i: usize = 0;
    while i < n
        invariant
            0 <= i <= n,
            n == fields@.len(),
            r@.map_values(|t: Vec<u8>| t@) == spec_name_toks(fields@).take(i as int),
        decreases n - i,
    {
        let ghost before = r@.map_values(|t: Vec<u8>| t@);
        let t = fields[i].name.clone();
        r.push(t);
        proof {
            assert(r@.map_values(|t: Vec<u8>| t@) =~= before.push(fields@[i as int].name@));
            assert(spec_name_toks(fields@).take(i + 1) =~= before.push(
                fields@[i as int].name@,
            ));
        }
        i = i + 1;
    }
    proof {
        assert(spec_name_toks(fields@).take(n as int) =~= spec_name_toks(fields@));
    }
    r
}

fn size_toks_exec(fields: &Vec<FieldDef>) -> (r: Vec<Vec<u8>>)
    ensures
        r@.map_values(|t: Vec<u8>| t@) == spec_size_toks(fields@),
{
    let n = fields.len();
    let mut r: Vec<Vec<u8>> = Vec::new();
    let mut i: usize = 0;
    while i < n
        invariant
            0 <= i <= n,
            n == fields@.len(),
            r@.map_values(|t: Vec<u8>| t@) == spec_size_toks(fields@).take(i as int),
        decreases n - i,
    {
        let ghost before = r@.map_values(|t: Vec<u8>| t@);
        let t = fmt_u64_vec(fields[i].kind.width());
        r.push(t);
        proof {
            assert(r@.map_values(|t: Vec<u8>| t@) =~= before.push(
                dec_digits(fields@[i as int].kind.spec_width()),
            ));
            assert(spec_size_toks(fields@).take(i + 1) =~= before.push(
                dec_digits(fields@[i as int].kind.spec_width()),
            ));
        }
        i = i + 1;
    }
    proof {
        assert(spec_size_toks(fields@).take(n as int) =~= spec_size_toks(fields@));
    }
    r
}

fn type_toks_exec(fields: &Vec<FieldDef>) -> (r: Vec<Vec<u8>>)
    ensures
        r@.map_values(|t: Vec<u8>| t@) == spec_type_toks(fields@),
{
    let n = fields.len();
    let mut r: Vec<Vec<u8>> = Vec::new();
    let mut i: usize = 0;
    while i < n
        invariant
            0 <= i <= n,
            n == fields@.len(),
            r@.map_values(|t: Vec<u8>| t@) == spec_type_toks(fields@).take(i as int),
        decreases n - i,
    {
        let ghost before = r@.map_values(|t: Vec<u8>| t@);
        let code: u8 = match fields[i].kind.type_kind() {
            TypeKind::I => 73,
            TypeKind::U => 85,
            TypeKind::F => 70,
        };
        let t = vec![code];
        proof {
            assert(t@ =~= spec_type_tok(fields@[i as int].kind));
        }
        r.push(t);
        proof {
            assert(r@.map_values(|t: Vec<u8>| t@) =~= before.push(
                spec_type_tok(fields@[i as int].kind),
            ));
            assert(spec_type_toks(fields@).take(i + 1) =~= before.push(
                spec_type_tok(fields@[i as int].kind),
            ));
        }
        i = i + 1;
    }
    proof {
        assert(spec_type_toks(fields@).take(n as int) =~= spec_type_toks(fields@));
    }
    r
}

fn count_toks_exec(fields: &Vec<FieldDef>) -> (r: Vec<Vec<u8>>)
    ensures
        r@.map_values(|t: Vec<u8>| t@) == spec_count_toks(fields@),
{
    let n = fields.len();
    let mut r: Vec<Vec<u8>> = Vec::new();
    let mut i: usize = 0;
    while i < n
        invariant
            0 <= i <= n,
            n == fields@.len(),
            r@.map_values(|t: Vec<u8>| t@) == spec_count_toks(fields@).take(i as int),
        decreases n - i,
    {
        let ghost before = r@.map_values(|t: Vec<u8>| t@);
        let t = fmt_u64_vec(fields[i].count);
        r.push(t);
        proof {
            assert(r@.map_values(|t: Vec<u8>| t@) =~= before.push(
                dec_digits(fields@[i as int].count as nat),
            ));
            assert(spec_count_toks(fields@).take(i + 1) =~= before.push(
                dec_digits(fields@[i as int].count as nat),
            ));
        }
        i = i + 1;
    }
    proof {
        assert(spec_count_toks(fields@).take(n as int) =~= spec_count_toks(fields@));
    }
    r
}

fn viewpoint_toks_exec(v: &ViewPoint) -> (r: Vec<Vec<u8>>)
    ensures
        r@.map_values(|t: Vec<u8>| t@) == spec_viewpoint_toks(*v),
{
    let mut r: Vec<Vec<u8>> = Vec::new();
    r.push(crate::float_text::format_f64_ascii(v.tx));
    r.push(crate::float_text::format_f64_ascii(v.ty));
    r.push(crate::float_text::format_f64_ascii(v.tz));
    r.push(crate::float_text::format_f64_ascii(v.qw));
    r.push(crate::float_text::format_f64_ascii(v.qx));
    r.push(crate::float_text::format_f64_ascii(v.qy));
    r.push(crate::float_text::format_f64_ascii(v.qz));
    proof {
        assert(r@.map_values(|t: Vec<u8>| t@) =~= spec_viewpoint_toks(*v));
    }
    r
}

/// Serializes a full header.
fn emit_header(out: &mut Vec<u8>, m: &PcdMeta)
    ensures
        final(out)@ == old(out)@ + header_bytes(*m),
{
    let fields = &m.field_defs.fields;
    let l1 = two(crate::header::key_version_vec(), m.version.clone());
    push_line(out, &l1);
    let l2 = keyed(crate::header::key_fields_vec(), name_toks_exec(fields));
    push_line(out, &l2);
    let l3 = keyed(crate::header::key_size_vec(), size_toks_exec(fields));
    push_line(out, &l3);
    let l4 = keyed(crate::header::key_type_vec(), type_toks_exec(fields));
    push_line(out, &l4);
    let l5 = keyed(crate::header::key_count_vec(), count_toks_exec(fields));
    push_line(out, &l5);
    let l6 = two(crate::header::key_width_vec(), fmt_u64_vec(m.width));
    push_line(out, &l6);
    let l7 = two(crate::header::key_height_vec(), fmt_u64_vec(m.height));
    push_line(out, &l7);
    let l8 = keyed(crate::header::key_viewpoint_vec(), viewpoint_toks_exec(&m.viewpoint));
    push_line(out, &l8);
    let l9 = two(crate::header::key_points_vec(), fmt_u64_vec(m.num_points));
    push_line(out, &l9);
    let dword: Vec<u8> = match m.data {
        DataKind::Ascii => crate::header::word_ascii_vec(),
        DataKind::Binary => crate::header::word_binary_vec(),
    };
    let l10 = two(crate::header::key_data_vec(), dword);
    push_line(out, &l10);
    proof {
        let fs = m.field_defs.fields@;
        assert(seq![key_version()] + seq![m.version@] =~= l1@.map_values(|t: Vec<u8>| t@));
        assert(seq![key_width()] + seq![dec_digits(m.width as nat)] =~= l6@.map_values(
            |t: Vec<u8>| t@,
        ));
        assert(seq![key_height()] + seq![dec_digits(m.height as nat)] =~= l7@.map_values(
            |t: Vec<u8>| t@,
        ));
        assert(seq![key_points()] + seq![dec_digits(m.num_points as nat)] =~= l9@.map_values(
            |t: Vec<u8>| t@,
        ));
        assert(seq![key_data()] + seq![
            if m.data == DataKind::Ascii {
                word_ascii()
            } else {
                word_binary()
            },
        ] =~= l10@.map_values(|t: Vec<u8>| t@));
        assert(out@ =~= old(out)@ + header_bytes(*m));
    }
}

/// The metadata a builder describes; the point count is width times
/// height.
pub open spec fn spec_meta_of(w: WriterInit) -> PcdMeta {
    PcdMeta {
        version: w.version,
        width: w.width,
        height: w.height,
        viewpoint: w.viewpoint,
        num_points: ((w.width as nat) * (w.height as nat)) as u64,
        data: w.data_kind,
        field_defs: w.schema,
    }
}

/// A builder a writer can be made from: a well-formed schema whose field
/// names are single writable tokens, a version that is one writable
/// token, and a point count that fits in 64 bits.
pub open spec fn spec_init_ok(w: WriterInit) -> bool {
    &&& w.schema.wf()
    &&& forall|i: int|
        0 <= i < w.schema.fields@.len() ==> wf_token(#[trigger] w.schema.fields@[i].name@)
    &&& wf_token(w.version@)
    &&& (w.width as nat) * (w.height as nat) <= u64::MAX
}

fn is_wf_token(t: &Vec<u8>) -> (b: bool)
    ensures
        b == wf_token(t@),
{
    let n = t.len();
    if n == 0 {
        return false;
    }
    let mut i: usize = 0;
    while i < n
        invariant
            0 <= i <= n,
            n == t@.len(),
            forall|m: int| 0 <= m < i ==> !crate::tokens::is_space(#[trigger] t@[m]) && t@[m] != 10,
        decreases n - i,
    {
        let b = t[i];
        if b == 32 || b == 9 || b == 13 || b == 10 {
            return false;
        }
        i = i + 1;
    }
    true
}

/// Builder for a writer: the file-level metadata and the schema, fixed
/// before any data byte is emitted.
pub struct WriterInit {
    pub version: Vec<u8>,
    pub width: u64,
    pub height: u64,
    pub viewpoint: ViewPoint,
    pub data_kind: DataKind,
    pub schema: Schema,
}

/// Writer for dynamically typed records. Built from a `WriterInit`, which
/// immediately serializes the header; then fed one record per point; then
/// finished, which hands the file's bytes back.
pub struct DynWriter {
    meta: PcdMeta,
    out: Vec<u8>,
    points_written: u64,
}

impl WriterInit {
    /// Validates the metadata, writes the header, and hands back a writer
    /// that accepts exactly `width * height` records.
    pub fn build_dyn(self) -> (res: Result<DynWriter, Error>)
        ensures
            match res {
                Ok(w) => {
                    &&& spec_init_ok(self)
                    &&& w.wf()
                    &&& w.spec_points_written() == 0
                    &&& w.spec_meta() == spec_meta_of(self)
                    &&& w.spec_out() == header_bytes(spec_meta_of(self))
                },
                Err(e) => e == Error::Meta && !spec_init_ok(self),
            },
    {
        if self.schema.fields.len() == 0 {
            return Err(Error::Meta);
        }
        let nf = self.schema.fields.len();
        let mut i: usize = 0;
        while i < nf
            invariant
                0 <= i <= nf,
                nf == self.schema.fields@.len(),
                forall|m: int| 0 <= m < i ==> wf_token(#[trigger] self.schema.fields@[m].name@),
                forall|m: int| 0 <= m < i ==> #[trigger] self.schema.fields@[m].count >= 1,
            decreases nf - i,
        {
            let d = &self.schema.fields[i];
            if d.count == 0 {
                return Err(Error::Meta);
            }
            if !is_wf_token(&d.name) {
                return Err(Error::Meta);
            }
            proof {
                assert(wf_token(self.schema.fields@[i as int].name@));
                assert(self.schema.fields@[i as int].count >= 1);
            }
            i = i + 1;
        }
        if !check_layout(&self.schema.fields) {
            return Err(Error::Meta);
        }
        if !is_wf_token(&self.version) {
            return Err(Error::Meta);
        }
        proof {
            assert((self.width as int) * (self.height as int) <= 0xffff_ffff_ffff_ffffi128
                * 0xffff_ffff_ffff_ffffi128) by (nonlinear_arith)
                requires self.width <= 0xffff_ffff_ffff_ffffu64, self.height <= 0xffff_ffff_ffff_ffffu64;
        }
        let np128: u128 = (self.width as u128) * (self.height as u128);
        if np128 > u64::MAX as u128 {
            return Err(Error::Meta);
        }
        let num_points: u64 = np128 as u64;
        let meta = PcdMeta {
            version: self.version,
            width: self.width,
            height: self.height,
            viewpoint: self.viewpoint,
            num_points,
            data: self.data_kind,
            field_defs: self.schema,
        };
        let mut out: Vec<u8> = Vec::new();
        emit_header(&mut out, &meta);
        proof {
            assert(out@ =~= header_bytes(meta));
        }
        Ok(DynWriter { meta, out, points_written: 0 })
    }
}

impl DynWriter {
    pub closed spec fn wf(self) -> bool {
        self.meta.wf() && self.points_written <= self.meta.num_points
    }

    pub closed spec fn spec_meta(self) -> PcdMeta {
        self.meta
    }

    /// Every byte written so far: the header, then the encoded records.
    pub closed spec fn spec_out(self) -> Seq<u8> {
        self.out@
    }

    pub closed spec fn spec_points_written(self) -> u64 {
        self.points_written
    }

    pub fn meta(&self) -> (m: &PcdMeta)
        ensures
            m == self.spec_meta(),
    {
        &self.meta
    }

    /// Encodes one record at the end of the output. Fails with
    /// `WriteOverflow` when the declared point count is already reached,
    /// and with `WriteShape` when the record does not match the schema;
    /// either failure leaves the writer, and every byte written so far,
    /// unchanged.
    pub fn push(&mut self, r: &DynRecord) -> (res: Result<(), Error>)
        requires
            old(self).wf(),
        ensures
            final(self).wf(),
            final(self).spec_meta() == old(self).spec_meta(),
            match res {
                Ok(_) => {
                    &&& old(self).spec_points_written() < old(self).spec_meta().num_points
                    &&& record_matches(*r, old(self).spec_meta().field_defs)
                    &&& final(self).spec_points_written() == old(self).spec_points_written() + 1
                    &&& (old(self).spec_meta().data == DataKind::Binary ==> final(self).spec_out() == old(self).spec_out() + bin_of_record(
                        old(self).spec_meta().field_defs.fields@,
                        record_raws(*r),
                    ))
                    &&& (old(self).spec_meta().data == DataKind::Ascii ==> final(self).spec_out() == old(self).spec_out() + join_sp(
                        toks_of_record(
                            old(self).spec_meta().field_defs.fields@,
                            record_raws(*r),
                        ),
                    ) + seq![10u8] && crate::codec::ascii_raws_witness(
                        old(self).spec_meta().field_defs.fields@,
                        record_raws(*r),
                    ) && crate::tokens::all_wf_tokens(
                        toks_of_record(
                            old(self).spec_meta().field_defs.fields@,
                            record_raws(*r),
                        ),
                    ))
                },
                Err(e) => {
                    &&& *final(self) == *old(self)
                    &&& (e == Error::WriteOverflow || e == Error::WriteShape)
                    &&& (e == Error::WriteOverflow <==> old(self).spec_points_written() == old(self).spec_meta().num_points)
                    &&& (e == Error::WriteShape <==> old(self).spec_points_written() < old(self).spec_meta().num_points && !record_matches(
                        *r,
                        old(self).spec_meta().field_defs,
                    ))
                },
            },
    {
        if self.points_written == self.meta.num_points {
            return Err(Error::WriteOverflow);
        }
        if !check_record(r, &self.meta.field_defs) {
            return Err(Error::WriteShape);
        }
        match self.meta.data {
            DataKind::Binary => encode_record_bin(&mut self.out, r, &self.meta.field_defs),
            DataKind::Ascii => encode_record_ascii(&mut self.out, r, &self.meta.field_defs),
        }
        self.points_written = self.points_written + 1;
        Ok(())
    }

    /// Completes the writer and hands the file's bytes back; fails when
    /// fewer records were pushed than the header declares.
    pub fn finish(self) -> (res: Result<Vec<u8>, Error>)
        requires
            self.wf(),
        ensures
            match res {
                Ok(v) => self.spec_points_written() == self.spec_meta().num_points && v@
                    == self.spec_out(),
                Err(e) => e == Error::Meta && self.spec_points_written()
                    != self.spec_meta().num_points,
            },
    {
        if self.points_written == self.meta.num_points {
            Ok(self.out)
        } else {
            Err(Error::Meta)
        }
    }
}

/// Writer of statically typed records: the dynamic writer plus a binding,
/// validated at build time, of the schema onto the record type's shape.
pub struct Writer<T: crate::record::PcdSerialize> {
    inner: DynWriter,
    _marker: core::marker::PhantomData<T>,
}

impl WriterInit {
    /// Validates the metadata as `build_dyn` does, and additionally binds
    /// the schema to the record type: a schema that does not have exactly
    /// the type's declared shape is refused with the `Binding` fault.
    pub fn build<T: crate::record::PcdSerialize>(self) -> (res: Result<Writer<T>, Error>)
        ensures
            match res {
                Ok(w) => {
                    &&& spec_init_ok(self)
                    &&& crate::record::schema_shape(self.schema) == T::spec_shape()
                    &&& crate::record::schema_names(self.schema) == T::spec_names()
                    &&& w.wf()
                    &&& w.spec_points_written() == 0
                    &&& w.spec_meta() == spec_meta_of(self)
                    &&& w.spec_out() == header_bytes(spec_meta_of(self))
                },
                Err(e) => (e == Error::Meta && !spec_init_ok(self)) || (e == Error::Binding
                    && spec_init_ok(self) && (crate::record::schema_shape(self.schema)
                    != T::spec_shape() || crate::record::schema_names(self.schema)
                    != T::spec_names())),
            },
    {
        let bound = T::bind(&self.schema);
        match self.build_dyn() {
            Err(e) => Err(e),
            Ok(inner) => {
                if !bound {
                    return Err(Error::Binding);
                }
                Ok(Writer { inner, _marker: core::marker::PhantomData })
            },
        }
    }
}

impl<T: crate::record::PcdSerialize> Writer<T> {
    pub closed spec fn wf(self) -> bool {
        &&& self.inner.wf()
        &&& crate::record::schema_shape(self.inner.spec_meta().field_defs) == T::spec_shape()
        &&& crate::record::schema_names(self.inner.spec_meta().field_defs) == T::spec_names()
    }

    pub closed spec fn spec_meta(self) -> PcdMeta {
        self.inner.spec_meta()
    }

    pub closed spec fn spec_out(self) -> Seq<u8> {
        self.inner.spec_out()
    }

    pub closed spec fn spec_points_written(self) -> u64 {
        self.inner.spec_points_written()
    }

    pub fn meta(&self) -> (m: &PcdMeta)
        ensures
            m == self.spec_meta(),
    {
        self.inner.meta()
    }

    /// Encodes one record at the end of the output; the bytes appended
    /// are exactly those the dynamic path writes for the record's raw
    /// values. Fails only with `WriteOverflow`, when the declared point
    /// count is already reached, leaving everything unchanged: a bound
    /// record always matches the schema.
    pub fn push(&mut self, t: &T) -> (res: Result<(), Error>)
        requires
            old(self).wf(),
        ensures
            final(self).wf(),
            final(self).spec_meta() == old(self).spec_meta(),
            match res {
                Ok(_) => {
                    &&& old(self).spec_points_written() < old(self).spec_meta().num_points
                    &&& final(self).spec_points_written() == old(self).spec_points_written() + 1
                    &&& (old(self).spec_meta().data == DataKind::Binary ==> final(self).spec_out() == old(self).spec_out() + bin_of_record(
                        old(self).spec_meta().field_defs.fields@,
                        t.spec_raws(),
                    ))
                    &&& (old(self).spec_meta().data == DataKind::Ascii ==> final(self).spec_out() == old(self).spec_out() + join_sp(
                        toks_of_record(old(self).spec_meta().field_defs.fields@, t.spec_raws()),
                    ) + seq![10u8] && crate::codec::ascii_raws_witness(
                        old(self).spec_meta().field_defs.fields@,
                        t.spec_raws(),
                    ) && crate::tokens::all_wf_tokens(
                        toks_of_record(old(self).spec_meta().field_defs.fields@, t.spec_raws()),
                    ))
                },
                Err(e) => {
                    &&& *final(self) == *old(self)
                    &&& e == Error::WriteOverflow
                    &&& old(self).spec_points_written() == old(self).spec_meta().num_points
                },
            },
    {
        let rec = t.to_record();
        proof {
            crate::record::lemma_shape_matches(rec, self.inner.spec_meta().field_defs);
        }
        self.inner.push(&rec)
    }

    /// Completes the writer and hands the file's bytes back; fails when
    /// fewer records were pushed than the header declares.
    pub fn finish(self) -> (res: Result<Vec<u8>, Error>)
        requires
            self.wf(),
        ensures
            match res {
                Ok(v) => self.spec_points_written() == self.spec_meta().num_points && v@
                    == self.spec_out(),
                Err(e) => e == Error::Meta && self.spec_points_written()
                    != self.spec_meta().num_points,
            },
    {
        self.inner.finish()
    }
}

/// Tokens for a two-token header line.
fn two(key: Vec<u8>, tok: Vec<u8>) -> (r: Vec<Vec<u8>>)
    ensures
        r@.map_values(|t: Vec<u8>| t@) == seq![key@, tok@],
{
    let ghost keyv = key@;
    let ghost tokv = tok@;
    let mut r: Vec<Vec<u8>> = Vec::new();
    r.push(key);
    r.push(tok);
    proof {
        assert(r@.map_values(|t: Vec<u8>| t@) =~= seq![keyv, tokv]);
    }
    r
}

} // verus!
