use vstd::prelude::*;

verus! {

/// Scalar element type of one field: signedness class and byte width.
#[derive(Clone, Copy, PartialEq, Eq, Structural, Debug)]
pub enum ValueKind {
    I8,
    U8,
    I16,
    U16,
    I32,
    U32,
    F32,
    F64,
}

/// Signedness class of a scalar type, as spelled in a header's TYPE line.
#[derive(Clone, Copy, PartialEq, Eq, Structural, Debug)]
pub enum TypeKind {
    I,
    U,
    F,
}

/// Encoding of the data section.
#[derive(Clone, Copy, PartialEq, Eq, Structural, Debug)]
pub enum DataKind {
    Ascii,
    Binary,
}

impl ValueKind {
    /// Byte width of one scalar of this kind.
    pub open spec fn spec_width(self) -> nat {
        match self {
            ValueKind::I8 => 1,
            ValueKind::U8 => 1,
            ValueKind::I16 => 2,
            ValueKind::U16 => 2,
            ValueKind::I32 => 4,
            ValueKind::U32 => 4,
            ValueKind::F32 => 4,
            ValueKind::F64 => 8,
        }
    }

    pub fn width(self) -> (w: u64)
        ensures
            w == self.spec_width(),
    {
        match self {
            ValueKind::I8 => 1,
            ValueKind::U8 => 1,
            ValueKind::I16 => 2,
            ValueKind::U16 => 2,
            ValueKind::I32 => 4,
            ValueKind::U32 => 4,
            ValueKind::F32 => 4,
            ValueKind::F64 => 8,
        }
    }

    /// Signedness class of this kind.
    pub open spec fn spec_type_kind(self) -> TypeKind {
        match self {
            ValueKind::I8 => TypeKind::I,
            ValueKind::I16 => TypeKind::I,
            ValueKind::I32 => TypeKind::I,
            ValueKind::U8 => TypeKind::U,
            ValueKind::U16 => TypeKind::U,
            ValueKind::U32 => TypeKind::U,
            ValueKind::F32 => TypeKind::F,
            ValueKind::F64 => TypeKind::F,
        }
    }

    pub fn type_kind(self) -> (t: TypeKind)
        ensures
            t == self.spec_type_kind(),
    {
        match self {
            ValueKind::I8 | ValueKind::I16 | ValueKind::I32 => TypeKind::I,
            ValueKind::U8 | ValueKind::U16 | ValueKind::U32 => TypeKind::U,
            ValueKind::F32 | ValueKind::F64 => TypeKind::F,
        }
    }

    /// The scalar kind a TYPE code and a SIZE select, if the combination
    /// is supported.
    pub open spec fn spec_from_code(t: TypeKind, size: u64) -> Option<ValueKind> {
        match (t, size) {
            (TypeKind::I, 1u64) => Some(ValueKind::I8),
            (TypeKind::I, 2u64) => Some(ValueKind::I16),
            (TypeKind::I, 4u64) => Some(ValueKind::I32),
            (TypeKind::U, 1u64) => Some(ValueKind::U8),
            (TypeKind::U, 2u64) => Some(ValueKind::U16),
            (TypeKind::U, 4u64) => Some(ValueKind::U32),
            (TypeKind::F, 4u64) => Some(ValueKind::F32),
            (TypeKind::F, 8u64) => Some(ValueKind::F64),
            _ => None,
        }
    }

    pub fn from_code(t: TypeKind, size: u64) -> (r: Option<ValueKind>)
        ensures
            r == ValueKind::spec_from_code(t, size),
    {
        match (t, size) {
            (TypeKind::I, 1u64) => Some(ValueKind::I8),
            (TypeKind::I, 2u64) => Some(ValueKind::I16),
            (TypeKind::I, 4u64) => Some(ValueKind::I32),
            (TypeKind::U, 1u64) => Some(ValueKind::U8),
            (TypeKind::U, 2u64) => Some(ValueKind::U16),
            (TypeKind::U, 4u64) => Some(ValueKind::U32),
            (TypeKind::F, 4u64) => Some(ValueKind::F32),
            (TypeKind::F, 8u64) => Some(ValueKind::F64),
            _ => None,
        }
    }
}

/// One field of a schema: its name, scalar type, and how many scalars of
/// that type one point holds for this field.
#[derive(Clone, Debug)]
pub struct FieldDef {
    pub name: Vec<u8>,
    pub kind: ValueKind,
    pub count: u64,
}

/// Ordered sequence of field descriptors; the order fixes both the ASCII
/// column order and the binary byte layout of one point.
#[derive(Clone, Debug)]
pub struct Schema {
    pub fields: Vec<FieldDef>,
}

/// Bytes one point occupies in the binary encoding: the sum over the
/// fields of count times scalar width.
pub open spec fn spec_point_bytes(fs: Seq<FieldDef>) -> nat
    decreases fs.len(),
{
    if fs.len() == 0 {
        0
    } else {
        spec_point_bytes(fs.drop_last()) + (fs.last().count as nat) * fs.last().kind.spec_width()
    }
}

/// Scalar slots one point occupies: the sum of the field counts; in the
/// ASCII encoding every slot is one token.
pub open spec fn spec_token_count(fs: Seq<FieldDef>) -> nat
    decreases fs.len(),
{
    if fs.len() == 0 {
        0
    } else {
        spec_token_count(fs.drop_last()) + (fs.last().count as nat)
    }
}

/// A slot takes at least one byte, so the slot count never exceeds the
/// byte count.
pub proof fn lemma_tokens_le_bytes(fs: Seq<FieldDef>)
    ensures
        spec_token_count(fs) <= spec_point_bytes(fs),
    decreases fs.len(),
{
    if fs.len() > 0 {
        lemma_tokens_le_bytes(fs.drop_last());
        let f = fs.last();
        assert(f.count * 1 <= f.count * f.kind.spec_width()) by (nonlinear_arith)
            requires f.kind.spec_width() >= 1;
    }
}

impl Schema {
    /// A schema the codec can lay out: at least one field, every count
    /// positive, and the per-point layout within the machine's range.
    pub open spec fn wf(self) -> bool {
        &&& self.fields@.len() >= 1
        &&& forall|i: int|
            0 <= i < self.fields@.len() ==> #[trigger] self.fields@[i].count >= 1
        &&& spec_point_bytes(self.fields@) <= usize::MAX
    }

    pub open spec fn spec_point_bytes(self) -> nat {
        spec_point_bytes(self.fields@)
    }

    pub open spec fn spec_token_count(self) -> nat {
        spec_token_count(self.fields@)
    }

    /// Bytes one point occupies in the binary encoding.
    pub fn point_bytes(&self) -> (r: usize)
        requires
            self.wf(),
        ensures
            r == self.spec_point_bytes(),
    {
        let mut acc: usize = 0;
        let mut i: usize = 0;
        let n = self.fields.len();
        while i < n
            invariant
                0 <= i <= n,
                n == self.fields@.len(),
                self.wf(),
                acc == spec_point_bytes(self.fields@.take(i as int)),
            decreases n - i,
        {
            proof {
                lemma_point_bytes_prefix_le(self.fields@, i + 1);
                assert(self.fields@.take(i + 1).drop_last() =~= self.fields@.take(i as int));
                assert(self.fields@.take(i + 1).last() == self.fields@[i as int]);
            }
            let f = &self.fields[i];
            let term = f.count * f.kind.width();
            acc = acc + (term as usize);
            i = i + 1;
        }
        proof {
            assert(self.fields@.take(n as int) =~= self.fields@);
        }
        acc
    }

    /// Scalar slots one point occupies.
    pub fn token_count(&self) -> (r: usize)
        requires
            self.wf(),
        ensures
            r == self.spec_token_count(),
    {
        let mut acc: usize = 0;
        let mut i: usize = 0;
        let n = self.fields.len();
        while i < n
            invariant
                0 <= i <= n,
                n == self.fields@.len(),
                self.wf(),
                acc == spec_token_count(self.fields@.take(i as int)),
            decreases n - i,
        {
            proof {
                lemma_tokens_le_bytes(self.fields@);
                lemma_point_bytes_prefix_le(self.fields@, i + 1);
                lemma_token_count_prefix_le(self.fields@, i + 1);
                assert(self.fields@.take(i + 1).drop_last() =~= self.fields@.take(i as int));
                assert(self.fields@.take(i + 1).last() == self.fields@[i as int]);
            }
            let f = &self.fields[i];
            acc = acc + (f.count as usize);
            i = i + 1;
        }
        proof {
            assert(self.fields@.take(n as int) =~= self.fields@);
        }
        acc
    }
}

/// The byte total of a prefix never exceeds the byte total of the whole.
pub proof fn lemma_point_bytes_prefix_le(fs: Seq<FieldDef>, i: int)
    requires
        0 <= i <= fs.len(),
    ensures
        spec_point_bytes(fs.take(i)) <= spec_point_bytes(fs),
    decreases fs.len() - i,
{
    if i < fs.len() {
        lemma_point_bytes_prefix_le(fs, i + 1);
        assert(fs.take(i + 1).drop_last() =~= fs.take(i));
    } else {
        assert(fs.take(i) =~= fs);
    }
}

/// The slot total of a prefix never exceeds the slot total of the whole.
pub proof fn lemma_token_count_prefix_le(fs: Seq<FieldDef>, i: int)
    requires
        0 <= i <= fs.len(),
    ensures
        spec_token_count(fs.take(i)) <= spec_token_count(fs),
    decreases fs.len() - i,
{
    if i < fs.len() {
        lemma_token_count_prefix_le(fs, i + 1);
        assert(fs.take(i + 1).drop_last() =~= fs.take(i));
    } else {
        assert(fs.take(i) =~= fs);
    }
}

/// Sensor pose: translation and unit quaternion, each component held as
/// the bit pattern of an IEEE-754 double.
#[derive(Clone, Copy, PartialEq, Eq, Structural, Debug)]
pub struct ViewPoint {
    pub tx: u64,
    pub ty: u64,
    pub tz: u64,
    pub qw: u64,
    pub qx: u64,
    pub qy: u64,
    pub qz: u64,
}

/// Everything a header declares about a file.
#[derive(Clone, Debug)]
pub struct PcdMeta {
    pub version: Vec<u8>,
    pub width: u64,
    pub height: u64,
    pub viewpoint: ViewPoint,
    pub num_points: u64,
    pub data: DataKind,
    pub field_defs: Schema,
}

impl PcdMeta {
    pub open spec fn wf(self) -> bool {
        self.field_defs.wf()
    }
}

} // verus!
