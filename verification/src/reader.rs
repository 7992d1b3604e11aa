use vstd::prelude::*;

use crate::codec::{decode_record_ascii, decode_record_bin};
use crate::error::Error;
use crate::header::{meta_model, parse_header, spec_parse_header, FieldModel, MetaModel};
use crate::metas::{DataKind, PcdMeta, ValueKind};
use crate::record::{
    bin_of_record, parse_record_toks, record_matches, record_raws, record_shape, schema_names,
    schema_shape, DynRecord, PcdDeserialize,
};
use crate::tokens::{find_nl, find_newline, split_tokens, subvec, tokens_of};

verus! {

/// The decode of one point of the data section at `pos`: the raw record
/// and the position after it, or `None` when the remaining bytes are
/// truncated (binary: fewer than one point's bytes; ASCII: no line left)
/// or the ASCII line does not parse against the schema.
pub open spec fn spec_decode_point(
    s: crate::metas::Schema,
    kind: DataKind,
    data: Seq<u8>,
    pos: int,
) -> Option<(Seq<Seq<u64>>, int)> {
    match kind {
        DataKind::Binary => if pos + s.spec_point_bytes() <= data.len() {
            Some(
                (
                    crate::codec::bin_raws_record(s.fields@, data, pos),
                    pos + s.spec_point_bytes(),
                ),
            )
        } else {
            None
        },
        DataKind::Ascii => if pos < data.len() {
            let e = find_nl(data, pos);
            match parse_record_toks(s.fields@, tokens_of(data.subrange(pos, e))) {
                Some(rr) => Some(
                    (
                        rr,
                        if e < data.len() {
                            e + 1
                        } else {
                            e
                        },
                    ),
                ),
                None => None,
            }
        } else {
            None
        },
    }
}

/// The first `n` points decoded in sequence from `pos`, with the position
/// after them, or `None` when any of the `n` fails.
pub open spec fn spec_decode_stream(
    s: crate::metas::Schema,
    kind: DataKind,
    data: Seq<u8>,
    pos: int,
    n: nat,
) -> Option<(Seq<Seq<Seq<u64>>>, int)>
    decreases n,
{
    if n == 0 {
        Some((Seq::empty(), pos))
    } else {
        match spec_decode_point(s, kind, data, pos) {
            None => None,
            Some((rr, q)) => match spec_decode_stream(s, kind, data, q, (n - 1) as nat) {
                None => None,
                Some((rest, qq)) => Some((seq![rr] + rest, qq)),
            },
        }
    }
}

/// Extending the stream by one decodes that point at the stream's end.
pub proof fn lemma_stream_snoc(
    s: crate::metas::Schema,
    kind: DataKind,
    data: Seq<u8>,
    pos: int,
    n: nat,
)
    ensures
        spec_decode_stream(s, kind, data, pos, n) is None ==> spec_decode_stream(
            s,
            kind,
            data,
            pos,
            n + 1,
        ) is None,
        spec_decode_stream(s, kind, data, pos, n) matches Some(sq) ==> spec_decode_stream(
            s,
            kind,
            data,
            pos,
            n + 1,
        ) == (match spec_decode_point(s, kind, data, sq.1) {
            None => None,
            Some(p) => Some((sq.0.push(p.0), p.1)),
        }),
    decreases n,
{
    if n == 0 {
        match spec_decode_point(s, kind, data, pos) {
            None => {},
            Some((rr, q)) => {
                assert(spec_decode_stream(s, kind, data, q, 0) == Some((
                    Seq::<Seq<Seq<u64>>>::empty(),
                    q,
                )));
                assert(spec_decode_stream(s, kind, data, pos, 1) == Some((
                    seq![rr] + Seq::<Seq<Seq<u64>>>::empty(),
                    q,
                )));
                assert(seq![rr] + Seq::<Seq<Seq<u64>>>::empty() =~= Seq::<
                    Seq<Seq<u64>>,
                >::empty().push(rr));
            },
        }
    } else {
        match spec_decode_point(s, kind, data, pos) {
            None => {},
            Some((rr0, q0)) => {
                lemma_stream_snoc(s, kind, data, q0, (n - 1) as nat);
                match spec_decode_stream(s, kind, data, q0, (n - 1) as nat) {
                    None => {},
                    Some((rest, q)) => {
                        assert(spec_decode_stream(s, kind, data, pos, n) == Some((
                            seq![rr0] + rest,
                            q,
                        )));
                        match spec_decode_point(s, kind, data, q) {
                            None => {
                                assert(spec_decode_stream(s, kind, data, q0, n) is None);
                            },
                            Some((rr, qq)) => {
                                assert(spec_decode_stream(s, kind, data, q0, n) == Some((
                                    rest.push(rr),
                                    qq,
                                )));
                                assert(seq![rr0] + rest.push(rr) =~= (seq![rr0] + rest).push(
                                    rr,
                                ));
                                assert(spec_decode_stream(s, kind, data, pos, n + 1) == Some((
                                    (seq![rr0] + rest).push(rr),
                                    qq,
                                )));
                            },
                        }
                    },
                }
            },
        }
    }
}

/// A decodable stream decodes every prefix, and each point before its
/// end succeeds: a data section whose declared points all decode admits
/// no failing point, so the bulk loader is owed success on it.
pub proof fn lemma_stream_prefix(
    s: crate::metas::Schema,
    kind: DataKind,
    data: Seq<u8>,
    pos: int,
    n: nat,
    k: nat,
)
    requires
        k <= n,
        spec_decode_stream(s, kind, data, pos, n) is Some,
    ensures
        spec_decode_stream(s, kind, data, pos, k) is Some,
        k < n ==> spec_decode_point(
            s,
            kind,
            data,
            spec_decode_stream(s, kind, data, pos, k)->Some_0.1,
        ) is Some,
    decreases n,
{
    if n > 0 {
        match spec_decode_point(s, kind, data, pos) {
            None => {},
            Some((rr0, q0)) => {
                if k == 0 {
                    assert(spec_decode_stream(s, kind, data, pos, 0) == Some((
                        Seq::<Seq<Seq<u64>>>::empty(),
                        pos,
                    )));
                } else {
                    lemma_stream_prefix(s, kind, data, q0, (n - 1) as nat, (k - 1) as nat);
                    match spec_decode_stream(s, kind, data, q0, (k - 1) as nat) {
                        None => {},
                        Some((rest, qq)) => {
                            assert(spec_decode_stream(s, kind, data, pos, k) == Some((
                                seq![rr0] + rest,
                                qq,
                            )));
                        },
                    }
                }
            },
        }
    }
}

/// Reader of dynamically typed records: owns the file's bytes, the parsed
/// metadata, and a cursor, and decodes one point per call, lazily, until
/// the declared point count is reached.
pub struct DynReader {
    meta: PcdMeta,
    data: Vec<u8>,
    pos: usize,
    points_read: u64,
}

impl DynReader {
    pub closed spec fn wf(self) -> bool {
        self.meta.wf() && self.pos <= self.data@.len() && self.points_read
            <= self.meta.num_points
    }

    pub closed spec fn spec_meta(self) -> PcdMeta {
        self.meta
    }

    pub closed spec fn spec_data(self) -> Seq<u8> {
        self.data@
    }

    pub closed spec fn spec_pos(self) -> int {
        self.pos as int
    }

    pub closed spec fn spec_points_read(self) -> u64 {
        self.points_read
    }

    /// Opens a reader over the bytes of a whole file: parses the header
    /// and leaves the cursor at the first byte of the data section.
    pub fn new(data: Vec<u8>) -> (res: Result<DynReader, Error>)
        ensures
            match res {
                Ok(r) => {
                    &&& spec_parse_header(data@) == Ok::<_, Error>(
                        (meta_model(r.spec_meta()), r.spec_pos()),
                    )
                    &&& r.wf()
                    &&& r.spec_meta().wf()
                    &&& r.spec_points_read() == 0
                    &&& r.spec_data() == data@
                },
                Err(e) => spec_parse_header(data@) == Err::<(MetaModel, int), _>(e),
            },
    {
        match parse_header(&data) {
            Err(e) => Err(e),
            Ok((meta, pos)) => Ok(DynReader { meta, data, pos, points_read: 0 }),
        }
    }

    pub fn meta(&self) -> (m: &PcdMeta)
        ensures
            m == self.spec_meta(),
    {
        &self.meta
    }

    /// Decodes the next point. `None` exactly when the declared point
    /// count has been reached. A successful decode consumes one record's
    /// bytes (binary) or one line (ASCII) and is the unique record those
    /// bytes encode; a truncated data section gives the `Truncation`
    /// fault carrying the index of the missing point and leaves the
    /// reader unchanged; a malformed ASCII line gives its decode fault
    /// and is consumed, so that the next call reads the following line
    /// (line boundaries are recoverable; binary offsets are not).
    pub fn next(&mut self) -> (res: Option<Result<DynRecord, Error>>)
        requires
            old(self).wf(),
        ensures
            final(self).wf(),
            final(self).spec_meta() == old(self).spec_meta(),
            final(self).spec_data() == old(self).spec_data(),
            ({
                let m = old(self).spec_meta();
                let fs = m.field_defs;
                let data = old(self).spec_data();
                let pos = old(self).spec_pos();
                let pt = spec_decode_point(fs, m.data, data, pos);
                match res {
                    None => old(self).spec_points_read() == m.num_points && *final(self) == *old(self),
                    Some(rr) => {
                        &&& old(self).spec_points_read() < m.num_points
                        &&& match rr {
                            Ok(rec) => {
                                &&& record_matches(rec, fs)
                                &&& pt == Some((record_raws(rec), final(self).spec_pos()))
                                &&& final(self).spec_points_read() == old(self).spec_points_read() + 1
                                &&& (m.data == DataKind::Binary ==> {
                                    &&& pos + fs.spec_point_bytes() <= data.len()
                                    &&& bin_of_record(fs.fields@, record_raws(rec))
                                        == data.subrange(pos, pos + fs.spec_point_bytes())
                                    &&& final(self).spec_pos() == pos + fs.spec_point_bytes()
                                })
                                &&& (m.data == DataKind::Ascii ==> {
                                    let e = find_nl(data, pos);
                                    &&& pos < data.len()
                                    &&& parse_record_toks(
                                        fs.fields@,
                                        tokens_of(data.subrange(pos, e)),
                                    ) == Some(record_raws(rec))
                                    &&& final(self).spec_pos() == (if e < data.len() {
                                        e + 1
                                    } else {
                                        e
                                    })
                                })
                            },
                            Err(err) => {
                                &&& pt is None
                                &&& final(self).spec_points_read() == old(self).spec_points_read()
                                &&& (m.data == DataKind::Binary ==> *final(self) == *old(self)
                                    && err == (Error::Truncation {
                                    point: old(self).spec_points_read(),
                                }) && data.len() - pos < fs.spec_point_bytes())
                                &&& (m.data == DataKind::Ascii ==> {
                                    let e = find_nl(data, pos);
                                    let toks = tokens_of(data.subrange(pos, e));
                                    if pos >= data.len() {
                                        err == (Error::Truncation {
                                            point: old(self).spec_points_read(),
                                        }) && *final(self) == *old(self)
                                    } else {
                                        &&& parse_record_toks(fs.fields@, toks) is None
                                        &&& final(self).spec_pos() == (if e < data.len() {
                                            e + 1
                                        } else {
                                            e
                                        })
                                        &&& (toks.len() != fs.spec_token_count() ==> err
                                            == (Error::AsciiShape {
                                            point: old(self).spec_points_read(),
                                        }))
                                        &&& (toks.len() == fs.spec_token_count() ==> (
                                        err matches Error::BadToken { point: p, slot: _ }
                                            && p == old(self).spec_points_read()))
                                    }
                                })
                            },
                        }
                    },
                }
            }),
    {
        if self.points_read == self.meta.num_points {
            return None;
        }
        let pb = self.meta.field_defs.point_bytes();
        let n = self.data.len();
        match self.meta.data {
            DataKind::Binary => {
                if n - self.pos < pb {
                    return Some(Err(Error::Truncation { point: self.points_read }));
                }
                let (rec, q) = decode_record_bin(&self.data, self.pos, &self.meta.field_defs);
                self.pos = q;
                self.points_read = self.points_read + 1;
                Some(Ok(rec))
            },
            DataKind::Ascii => {
                if self.pos >= n {
                    return Some(Err(Error::Truncation { point: self.points_read }));
                }
                let e = find_newline(&self.data, self.pos);
                proof {
                    crate::tokens::lemma_find_nl(self.data@, self.pos as int);
                }
                let line = subvec(&self.data, self.pos, e);
                let toks = split_tokens(&line);
                let r = decode_record_ascii(&toks, &self.meta.field_defs, self.points_read);
                self.pos = if e < n {
                    e + 1
                } else {
                    e
                };
                match r {
                    Err(err) => Some(Err(err)),
                    Ok(rec) => {
                        self.points_read = self.points_read + 1;
                        Some(Ok(rec))
                    },
                }
            },
        }
    }
}

/// The shape a parsed header's field list declares.
pub open spec fn model_shape(m: MetaModel) -> Seq<(ValueKind, nat)> {
    m.fields.map_values(|f: FieldModel| (f.kind, f.count as nat))
}

/// The field names a parsed header's field list declares.
pub open spec fn model_names(m: MetaModel) -> Seq<Seq<u8>> {
    m.fields.map_values(|f: FieldModel| f.name)
}

/// The shape and names of a metadata value's schema are those of its
/// image.
pub proof fn lemma_model_shape(m: PcdMeta)
    ensures
        model_shape(meta_model(m)) == schema_shape(m.field_defs),
        model_names(meta_model(m)) == schema_names(m.field_defs),
{
    assert(model_shape(meta_model(m)) =~= schema_shape(m.field_defs));
    assert(model_names(meta_model(m)) =~= schema_names(m.field_defs));
}

/// Reader of statically typed records: the dynamic reader plus a binding,
/// validated once at construction, of the schema onto the record type's
/// declared shape. Each decoded record carries exactly the raw values the
/// dynamic path reads from the same bytes.
pub struct Reader<T: PcdDeserialize> {
    inner: DynReader,
    _marker: core::marker::PhantomData<T>,
}

impl<T: PcdDeserialize> Reader<T> {
    pub closed spec fn wf(self) -> bool {
        &&& self.inner.wf()
        &&& schema_shape(self.inner.spec_meta().field_defs) == T::spec_shape()
        &&& schema_names(self.inner.spec_meta().field_defs) == T::spec_names()
    }

    pub closed spec fn spec_meta(self) -> PcdMeta {
        self.inner.spec_meta()
    }

    pub closed spec fn spec_data(self) -> Seq<u8> {
        self.inner.spec_data()
    }

    pub closed spec fn spec_pos(self) -> int {
        self.inner.spec_pos()
    }

    pub closed spec fn spec_points_read(self) -> u64 {
        self.inner.spec_points_read()
    }

    /// Opens a reader and binds the schema to the record type: a schema
    /// whose field names or shape differ from the type's declared ones
    /// is refused with the `Binding` fault, before any record is
    /// decoded.
    pub fn new(data: Vec<u8>) -> (res: Result<Self, Error>)
        ensures
            match res {
                Ok(r) => {
                    &&& spec_parse_header(data@) matches Ok(p) && p.0 == meta_model(
                        r.spec_meta(),
                    ) && p.1 == r.spec_pos()
                    &&& schema_shape(r.spec_meta().field_defs) == T::spec_shape()
                    &&& schema_names(r.spec_meta().field_defs) == T::spec_names()
                    &&& r.wf()
                    &&& r.spec_points_read() == 0
                    &&& r.spec_data() == data@
                },
                Err(e) => match spec_parse_header(data@) {
                    Ok(p) => e == Error::Binding && (model_shape(p.0) != T::spec_shape()
                        || model_names(p.0) != T::spec_names()),
                    Err(he) => e == he,
                },
            },
    {
        match DynReader::new(data) {
            Err(e) => Err(e),
            Ok(inner) => {
                let ok = T::bind(&inner.meta().field_defs);
                proof {
                    lemma_model_shape(inner.spec_meta());
                }
                if !ok {
                    return Err(Error::Binding);
                }
                Ok(Reader { inner, _marker: core::marker::PhantomData })
            },
        }
    }

    pub fn meta(&self) -> (m: &PcdMeta)
        ensures
            m == self.spec_meta(),
    {
        self.inner.meta()
    }

    /// Decodes the next point into the bound record type. The result
    /// carries exactly the raw values that the dynamic path decodes from
    /// the same bytes: the two paths agree field for field. Faults come
    /// under the same conditions as on the dynamic reader: `Truncation`
    /// with the missing point's index when the data runs out, the ASCII
    /// decode faults when a line is malformed (the faulty line being
    /// consumed); binary faults leave the reader unchanged.
    pub fn next(&mut self) -> (res: Option<Result<T, Error>>)
        requires
            old(self).wf(),
        ensures
            final(self).wf(),
            final(self).spec_meta() == old(self).spec_meta(),
            final(self).spec_data() == old(self).spec_data(),
            ({
                let m = old(self).spec_meta();
                let fs = m.field_defs;
                let data = old(self).spec_data();
                let pos = old(self).spec_pos();
                let pt = spec_decode_point(fs, m.data, data, pos);
                match res {
                    None => old(self).spec_points_read() == m.num_points && final(self).spec_pos() == pos && final(self).spec_points_read() == old(self).spec_points_read(),
                    Some(rr) => {
                        &&& old(self).spec_points_read() < m.num_points
                        &&& match rr {
                            Ok(t) => {
                                &&& pt == Some((t.spec_raws(), final(self).spec_pos()))
                                &&& final(self).spec_points_read() == old(self).spec_points_read() + 1
                                &&& (m.data == DataKind::Binary ==> {
                                    &&& pos + fs.spec_point_bytes() <= data.len()
                                    &&& bin_of_record(fs.fields@, t.spec_raws())
                                        == data.subrange(pos, pos + fs.spec_point_bytes())
                                    &&& final(self).spec_pos() == pos + fs.spec_point_bytes()
                                })
                                &&& (m.data == DataKind::Ascii ==> {
                                    let e = find_nl(data, pos);
                                    &&& pos < data.len()
                                    &&& parse_record_toks(
                                        fs.fields@,
                                        tokens_of(data.subrange(pos, e)),
                                    ) == Some(t.spec_raws())
                                    &&& final(self).spec_pos() == (if e < data.len() {
                                        e + 1
                                    } else {
                                        e
                                    })
                                })
                            },
                            Err(err) => {
                                &&& pt is None
                                &&& final(self).spec_points_read() == old(self).spec_points_read()
                                &&& (m.data == DataKind::Binary ==> final(self).spec_pos() == pos
                                    && err == (Error::Truncation {
                                    point: old(self).spec_points_read(),
                                }) && data.len() - pos < fs.spec_point_bytes())
                                &&& (m.data == DataKind::Ascii ==> {
                                    let e = find_nl(data, pos);
                                    let toks = tokens_of(data.subrange(pos, e));
                                    if pos >= data.len() {
                                        err == (Error::Truncation {
                                            point: old(self).spec_points_read(),
                                        }) && final(self).spec_pos() == pos
                                    } else {
                                        &&& parse_record_toks(fs.fields@, toks) is None
                                        &&& final(self).spec_pos() == (if e < data.len() {
                                            e + 1
                                        } else {
                                            e
                                        })
                                        &&& (toks.len() != fs.spec_token_count() ==> err
                                            == (Error::AsciiShape {
                                            point: old(self).spec_points_read(),
                                        }))
                                        &&& (toks.len() == fs.spec_token_count() ==> (
                                        err matches Error::BadToken { point: p, slot: _ }
                                            && p == old(self).spec_points_read()))
                                    }
                                })
                            },
                        }
                    },
                }
            }),
    {
        match self.inner.next() {
            None => None,
            Some(Err(e)) => Some(Err(e)),
            Some(Ok(rec)) => {
                proof {
                    crate::record::lemma_shape_matches(rec, self.inner.spec_meta().field_defs);
                }
                Some(Ok(T::from_record(&rec)))
            },
        }
    }
}

} // verus!
