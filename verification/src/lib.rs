//! Codec for the PCD point-cloud file format: a textual header describing a
//! tabular schema (field names, scalar types, per-field element counts,
//! point count, sensor viewpoint) followed by a data section encoded either
//! as whitespace-delimited ASCII or as a packed little-endian binary blob.
//!
//! Float values are carried throughout as their IEEE-754 bit patterns, so
//! that both encodings are bit-exact; the decimal text of a float is
//! produced and read by a software implementation of IEEE-754 arithmetic.

pub mod codec;
pub mod decimal;
pub mod error;
pub mod float_text;
pub mod header;
pub mod helper;
pub mod lebytes;
pub mod metas;
pub mod reader;
pub mod record;
pub mod tokens;
pub mod writer;

pub use error::{Error, HeaderFault};
pub use helper::{load_dyn_records, HMRecords};
pub use metas::{DataKind, FieldDef, PcdMeta, Schema, TypeKind, ValueKind, ViewPoint};
pub use reader::{DynReader, Reader};
pub use record::{DynRecord, Field, PcdDeserialize, PcdSerialize, PointXyzRgb};
pub use writer::{DynWriter, Writer, WriterInit};
