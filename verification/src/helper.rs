use vstd::prelude::*;

use crate::error::Error;
use crate::header::{meta_model, spec_parse_header, MetaModel};
use crate::metas::{DataKind, PcdMeta, Schema};
use crate::reader::{lemma_stream_snoc, spec_decode_point, spec_decode_stream, DynReader};
use crate::record::{field_matches, field_raws, parse_record_toks, DynRecord, Field};
use crate::tokens::{find_nl, tokens_of};

verus! {

/// One field of one decoded point, paired with its schema name. The
/// format allows duplicate names, so the pairs keep the schema's order
/// rather than being keyed.
pub open spec fn pairs_match(v: Seq<(Vec<u8>, Field)>, s: Schema) -> bool {
    &&& v.len() == s.fields@.len()
    &&& forall|i: int|
        0 <= i < v.len() ==> (#[trigger] v[i]).0@ == s.fields@[i].name@ && field_matches(
            v[i].1,
            s.fields@[i],
        )
}

/// The raw values a list of name-and-value pairs carries, in order.
pub open spec fn pair_raws(v: Seq<(Vec<u8>, Field)>) -> Seq<Seq<u64>> {
    v.map_values(|p: (Vec<u8>, Field)| field_raws(p.1))
}

/// What the bulk loader's successful result is: the header of `data`
/// parses to `meta`'s image with the data section at `pos0`, and `v`
/// holds one pair list per declared point, each pairing the schema's
/// names, in order, with exactly the raw values that decoding the data
/// section point by point assigns.
pub open spec fn load_witness(
    data: Seq<u8>,
    v: Seq<Seq<(Vec<u8>, Field)>>,
    meta: PcdMeta,
    pos0: int,
) -> bool {
    &&& spec_parse_header(data) == Ok::<(MetaModel, int), Error>((meta_model(meta), pos0))
    &&& meta.wf()
    &&& v.len() == meta.num_points
    &&& (spec_decode_stream(meta.field_defs, meta.data, data, pos0, meta.num_points as nat)
        matches Some(sq) && sq.0 == v.map_values(|pl: Seq<(Vec<u8>, Field)>| pair_raws(pl)))
    &&& forall|i: int| 0 <= i < v.len() ==> pairs_match(#[trigger] v[i], meta.field_defs)
}

/// Some metadata witnesses the loader's success on `data` with `v`.
pub open spec fn loads_as(data: Seq<u8>, v: Seq<Seq<(Vec<u8>, Field)>>) -> bool {
    exists|meta: PcdMeta, pos0: int| #[trigger] load_witness(data, v, meta, pos0)
}

/// What a decode fault of the bulk loader is: the header parses, the
/// first `k` points decode, and the decode of point `k` fails with
/// exactly the fault `e` — truncation, or the ASCII line's fault.
pub open spec fn load_fail_witness(
    data: Seq<u8>,
    e: Error,
    meta: PcdMeta,
    pos0: int,
    k: nat,
) -> bool {
    &&& spec_parse_header(data) == Ok::<(MetaModel, int), Error>((meta_model(meta), pos0))
    &&& meta.wf()
    &&& k < meta.num_points
    &&& (spec_decode_stream(meta.field_defs, meta.data, data, pos0, k) matches Some(sq) && {
        let q = sq.1;
        &&& spec_decode_point(meta.field_defs, meta.data, data, q) is None
        &&& (meta.data == DataKind::Binary ==> e == (Error::Truncation { point: k as u64 })
            && data.len() - q < meta.field_defs.spec_point_bytes())
        &&& (meta.data == DataKind::Ascii ==> {
            let nl = find_nl(data, q);
            let toks = tokens_of(data.subrange(q, nl));
            if q >= data.len() {
                e == (Error::Truncation { point: k as u64 })
            } else {
                &&& parse_record_toks(meta.field_defs.fields@, toks) is None
                &&& (toks.len() != meta.field_defs.spec_token_count() ==> e
                    == (Error::AsciiShape { point: k as u64 }))
                &&& (toks.len() == meta.field_defs.spec_token_count() ==> (e matches
                Error::BadToken { point: p, slot: _ } && p == k as u64))
            }
        })
    })
}

/// Some first failing point witnesses the loader's decode fault on `data`.
pub open spec fn load_fails_as(data: Seq<u8>, e: Error) -> bool {
    exists|meta: PcdMeta, pos0: int, k: nat| #[trigger] load_fail_witness(data, e, meta, pos0, k)
}

/// Pairs each field of a decoded record with its schema name, in order.
fn pairs_of_record(rec: DynRecord, s: &Schema) -> (v: Vec<(Vec<u8>, Field)>)
    requires
        crate::record::record_matches(rec, *s),
    ensures
        pairs_match(v@, *s),
        forall|i: int| 0 <= i < v@.len() ==> (#[trigger] v@[i]).1 == rec.0@[i],
        pair_raws(v@) == crate::record::record_raws(rec),
{
    let ghost orig = rec.0@;
    let mut fields = rec.0;
    let mut v: Vec<(Vec<u8>, Field)> = Vec::new();
    while fields.len() > 0
        invariant
            fields@.len() <= orig.len(),
            orig.len() == s.fields@.len(),
            fields@ == orig.take(fields@.len() as int),
            v@.len() == orig.len() - fields@.len(),
            forall|i: int|
                0 <= i < v@.len() ==> (#[trigger] v@[i]).0@ == s.fields@[fields@.len() + i].name@
                    && v@[i].1 == orig[fields@.len() + i],
        decreases fields@.len(),
    {
        let ghost before = v@;
        let i = fields.len() - 1;
        let f = match fields.pop() {
            Some(f) => f,
            None => {
                proof {
                    assert(false);
                }
                return v;
            },
        };
        let name = s.fields[i].name.clone();
        v.insert(0, (name, f));
        proof {
            assert(fields@ =~= orig.take(fields@.len() as int));
            assert(v@ =~= seq![(name, f)].add(before));
            assert forall|m: int| 0 <= m < v@.len() implies (#[trigger] v@[m]).0@ == s.fields@[
                fields@.len() + m].name@ && v@[m].1 == orig[fields@.len() + m] by {
                if m > 0 {
                    assert(v@[m] == before[m - 1]);
                }
            }
        }
    }
    proof {
        assert forall|i: int| 0 <= i < v@.len() implies (#[trigger] v@[i]).0@ == s.fields@[
            i].name@ && field_matches(v@[i].1, s.fields@[i]) && v@[i].1 == orig[i] by {
            assert(v@[i].1 == orig[0 + i]);
        }
        assert(pair_raws(v@) =~= crate::record::record_raws(rec));
    }
    v
}

/// Reads a whole file held in memory into one vector of name-and-value
/// pair lists, one list per point, decoding every record eagerly through
/// the dynamic reader. Succeeds exactly when the header parses and every
/// declared point decodes; the result pairs the schema's names with the
/// decoded raw values, point by point (`load_witness`). Fails with the
/// header's fault, or with the first failing point's decode fault
/// (`load_fail_witness`), and with nothing else.
pub fn load_dyn_records(data: Vec<u8>) -> (res: Result<Vec<Vec<(Vec<u8>, Field)>>, Error>)
    ensures
        match res {
            Ok(v) => loads_as(data@, v@.map_values(|pl: Vec<(Vec<u8>, Field)>| pl@)),
            Err(e) => match spec_parse_header(data@) {
                Err(he) => e == he,
                Ok(_) => load_fails_as(data@, e),
            },
        },
{
    let ghost d = data@;
    let mut reader = match DynReader::new(data) {
        Err(e) => {
            return Err(e);
        },
        Ok(r) => r,
    };
    let ghost m0 = reader.spec_meta();
    let ghost pos0 = reader.spec_pos();
    let mut out: Vec<Vec<(Vec<u8>, Field)>> = Vec::new();
    loop
        invariant
            d == data@,
            reader.wf(),
            m0.wf(),
            reader.spec_meta() == m0,
            reader.spec_data() == d,
            spec_parse_header(d) == Ok::<(MetaModel, int), Error>((meta_model(m0), pos0)),
            out@.len() == reader.spec_points_read(),
            spec_decode_stream(m0.field_defs, m0.data, d, pos0, out@.len() as nat) == Some(
                (
                    out@.map_values(|pl: Vec<(Vec<u8>, Field)>| pl@).map_values(
                        |pl: Seq<(Vec<u8>, Field)>| pair_raws(pl),
                    ),
                    reader.spec_pos(),
                ),
            ),
            forall|i: int| 0 <= i < out@.len() ==> pairs_match((#[trigger] out@[i])@, m0.field_defs),
        ensures
            out@.len() == m0.num_points,
            spec_decode_stream(m0.field_defs, m0.data, d, pos0, out@.len() as nat) == Some(
                (
                    out@.map_values(|pl: Vec<(Vec<u8>, Field)>| pl@).map_values(
                        |pl: Seq<(Vec<u8>, Field)>| pair_raws(pl),
                    ),
                    reader.spec_pos(),
                ),
            ),
            forall|i: int| 0 <= i < out@.len() ==> pairs_match((#[trigger] out@[i])@, m0.field_defs),
        decreases m0.num_points - reader.spec_points_read(),
    {
        let ghost k = out@.len() as nat;
        let ghost cur_pos = reader.spec_pos();
        match reader.next() {
            None => {
                break ;
            },
            Some(Err(e)) => {
                proof {
                    assert(load_fail_witness(d, e, m0, pos0, k));
                }
                return Err(e);
            },
            Some(Ok(rec)) => {
                let ghost before = out@;
                let pairs = pairs_of_record(rec, &reader.meta().field_defs);
                out.push(pairs);
                proof {
                    lemma_stream_snoc(m0.field_defs, m0.data, d, pos0, k);
                    let mapped = |pl: Vec<(Vec<u8>, Field)>| pl@;
                    let raws = |pl: Seq<(Vec<u8>, Field)>| pair_raws(pl);
                    assert(out@ =~= before.push(pairs));
                    assert(out@.map_values(mapped) =~= before.map_values(mapped).push(pairs@));
                    assert(out@.map_values(mapped).map_values(raws) =~= before.map_values(
                        mapped,
                    ).map_values(raws).push(pair_raws(pairs@)));
                }
            },
        }
    }
    proof {
        assert(load_witness(d, out@.map_values(|pl: Vec<(Vec<u8>, Field)>| pl@), m0, pos0)) by {
            assert(out@.map_values(|pl: Vec<(Vec<u8>, Field)>| pl@).map_values(
                |pl: Seq<(Vec<u8>, Field)>| pair_raws(pl),
            ) == spec_decode_stream(
                m0.field_defs,
                m0.data,
                d,
                pos0,
                m0.num_points as nat,
            )->Some_0.0);
            let vv = out@.map_values(|pl: Vec<(Vec<u8>, Field)>| pl@);
            assert forall|i: int| 0 <= i < vv.len() implies pairs_match(
                #[trigger] vv[i],
                m0.field_defs,
            ) by {
                assert(vv[i] == out@[i]@);
            }
        }
    }
    Ok(out)
}

/// Iterator-style access to the same name-and-value pair lists: wraps the
/// dynamic reader and hands one point per call.
pub struct HMRecords {
    pub reader: DynReader,
}

impl HMRecords {
    /// Opens the wrapped reader over the bytes of a whole file: the
    /// reader holds exactly the parsed metadata, with its cursor at the
    /// first data byte and no point read yet.
    pub fn new(data: Vec<u8>) -> (res: Result<Self, Error>)
        ensures
            match res {
                Ok(r) => {
                    &&& spec_parse_header(data@) == Ok::<_, Error>(
                        (meta_model(r.reader.spec_meta()), r.reader.spec_pos()),
                    )
                    &&& r.reader.wf()
                    &&& r.reader.spec_points_read() == 0
                    &&& r.reader.spec_data() == data@
                },
                Err(e) => spec_parse_header(data@) == Err::<(MetaModel, int), _>(e),
            },
    {
        match DynReader::new(data) {
            Err(e) => Err(e),
            Ok(reader) => Ok(HMRecords { reader }),
        }
    }

    /// Decodes the next point and pairs each field with its schema name,
    /// exactly as the dynamic reader does: `None` iff the declared point
    /// count is reached; a success carries the raw values the data
    /// section's decode assigns at the cursor and advances it; a fault
    /// comes under the dynamic reader's conditions, naming the point.
    pub fn next(&mut self) -> (res: Option<Result<Vec<(Vec<u8>, Field)>, Error>>)
        requires
            old(self).reader.wf(),
        ensures
            final(self).reader.wf(),
            final(self).reader.spec_meta() == old(self).reader.spec_meta(),
            final(self).reader.spec_data() == old(self).reader.spec_data(),
            ({
                let m = old(self).reader.spec_meta();
                let fs = m.field_defs;
                let data = old(self).reader.spec_data();
                let pos = old(self).reader.spec_pos();
                let pt = spec_decode_point(fs, m.data, data, pos);
                match res {
                    None => old(self).reader.spec_points_read() == m.num_points && *final(self)
                        == *old(self),
                    Some(rr) => {
                        &&& old(self).reader.spec_points_read() < m.num_points
                        &&& match rr {
                            Ok(v) => {
                                &&& pairs_match(v@, fs)
                                &&& pt == Some((pair_raws(v@), final(self).reader.spec_pos()))
                                &&& final(self).reader.spec_points_read() == old(
                                    self,
                                ).reader.spec_points_read() + 1
                            },
                            Err(err) => {
                                &&& pt is None
                                &&& final(self).reader.spec_points_read() == old(
                                    self,
                                ).reader.spec_points_read()
                                &&& (m.data == DataKind::Binary ==> *final(self) == *old(self)
                                    && err == (Error::Truncation {
                                    point: old(self).reader.spec_points_read(),
                                }) && data.len() - pos < fs.spec_point_bytes())
                                &&& (m.data == DataKind::Ascii ==> {
                                    let e = find_nl(data, pos);
                                    let toks = tokens_of(data.subrange(pos, e));
                                    if pos >= data.len() {
                                        err == (Error::Truncation {
                                            point: old(self).reader.spec_points_read(),
                                        }) && *final(self) == *old(self)
                                    } else {
                                        &&& parse_record_toks(fs.fields@, toks) is None
                                        &&& final(self).reader.spec_pos() == (if e < data.len() {
                                            e + 1
                                        } else {
                                            e
                                        })
                                        &&& (toks.len() != fs.spec_token_count() ==> err
                                            == (Error::AsciiShape {
                                            point: old(self).reader.spec_points_read(),
                                        }))
                                        &&& (toks.len() == fs.spec_token_count() ==> (
                                        err matches Error::BadToken { point: p, slot: _ }
                                            && p == old(self).reader.spec_points_read()))
                                    }
                                })
                            },
                        }
                    },
                }
            }),
    {
        match self.reader.next() {
            None => None,
            Some(Err(e)) => Some(Err(e)),
            Some(Ok(rec)) => {
                let pairs = pairs_of_record(rec, &self.reader.meta().field_defs);
                Some(Ok(pairs))
            },
        }
    }
}

} // verus!
