use vstd::prelude::*;

verus! {

/// 256 to the power `w`: the number of raw values a `w`-byte scalar can take.
pub open spec fn pow256(w: nat) -> nat
    decreases w,
{
    if w == 0 {
        1
    } else {
        256 * pow256((w - 1) as nat)
    }
}

pub proof fn lemma_pow256_values()
    ensures
        pow256(1) == 0x100,
        pow256(2) == 0x10000,
        pow256(4) == 0x1_0000_0000,
        pow256(8) == 0x1_0000_0000_0000_0000,
{
    reveal_with_fuel(pow256, 9);
}

/// The `w` little-endian bytes of the raw value `v`.
pub open spec fn le_bytes(v: nat, w: nat) -> Seq<u8>
    decreases w,
{
    if w == 0 {
        Seq::empty()
    } else {
        seq![(v % 256) as u8] + le_bytes(v / 256, (w - 1) as nat)
    }
}

/// The raw value a little-endian byte sequence denotes.
pub open spec fn le_val(s: Seq<u8>) -> nat
    decreases s.len(),
{
    if s.len() == 0 {
        0
    } else {
        (s[0] as nat) + 256 * le_val(s.skip(1))
    }
}

pub proof fn lemma_le_bytes_len(v: nat, w: nat)
    ensures
        le_bytes(v, w).len() == w,
    decreases w,
{
    if w > 0 {
        lemma_le_bytes_len(v / 256, (w - 1) as nat);
    }
}

/// Reading back the bytes of a value in range returns the value.
pub proof fn lemma_le_round_trip(v: nat, w: nat)
    requires
        v < pow256(w),
    ensures
        le_val(le_bytes(v, w)) == v,
    decreases w,
{
    if w > 0 {
        assert(v / 256 < pow256((w - 1) as nat)) by (nonlinear_arith)
            requires v < 256 * pow256((w - 1) as nat);
        lemma_le_round_trip(v / 256, (w - 1) as nat);
        lemma_le_bytes_len(v / 256, (w - 1) as nat);
        assert(le_bytes(v, w).skip(1) =~= le_bytes(v / 256, (w - 1) as nat));
        assert(v % 256 + 256 * (v / 256) == v);
    }
}

pub proof fn lemma_le_val_bound(s: Seq<u8>)
    ensures
        le_val(s) < pow256(s.len()),
    decreases s.len(),
{
    if s.len() > 0 {
        lemma_le_val_bound(s.skip(1));
    }
}

/// Two values in range with the same bytes are the same value.
pub proof fn lemma_le_bytes_injective(a: nat, b: nat, w: nat)
    requires
        a < pow256(w),
        b < pow256(w),
        le_bytes(a, w) == le_bytes(b, w),
    ensures
        a == b,
{
    lemma_le_round_trip(a, w);
    lemma_le_round_trip(b, w);
}

/// A byte sequence is the encoding of its own value.
pub proof fn lemma_le_encode_decode(s: Seq<u8>)
    ensures
        le_bytes(le_val(s), s.len()) == s,
    decreases s.len(),
{
    if s.len() > 0 {
        let rest = le_val(s.skip(1));
        assert((s[0] + 256 * rest) % 256 == s[0]) by (nonlinear_arith)
            requires 0 <= s[0] < 256, rest >= 0;
        assert((s[0] + 256 * rest) / 256 == rest) by (nonlinear_arith)
            requires 0 <= s[0] < 256, rest >= 0;
        lemma_le_encode_decode(s.skip(1));
        assert(le_bytes(le_val(s), s.len()) =~= s);
    } else {
        assert(le_bytes(le_val(s), s.len()) =~= s);
    }
}

/// Reads the `w`-byte little-endian scalar at `pos`.
pub fn read_le(data: &Vec<u8>, pos: usize, w: usize) -> (r: u64)
    requires
        1 <= w <= 8,
        pos + w <= data@.len(),
    ensures
        r == le_val(data@.subrange(pos as int, pos + w)),
        r < pow256(w as nat),
{
    proof {
        lemma_pow256_values();
        reveal_with_fuel(pow256, 9);
    }
    let n = data.len();
    let mut acc: u64 = 0;
    let mut j: usize = w;
    while j > 0
        invariant
            0 <= j <= w <= 8,
            pos + w <= n,
            n == data@.len(),
            acc == le_val(data@.subrange(pos + j, pos + w)),
            acc < pow256((w - j) as nat),
        decreases j,
    {
        let b = data[pos + j - 1];
        proof {
            reveal_with_fuel(pow256, 9);
            let s = data@.subrange(pos + j - 1, pos + w);
            assert(s.skip(1) =~= data@.subrange(pos + j, pos + w));
            assert(s[0] == data@[pos + j - 1]);
            assert(acc * 256 + b < 256 * pow256((w - j) as nat)) by (nonlinear_arith)
                requires acc < pow256((w - j) as nat), b < 256;
        }
        acc = acc * 256 + (b as u64);
        proof {
            let s = data@.subrange(pos + j - 1, pos + w);
            assert(le_val(s) == s[0] + 256 * le_val(s.skip(1)));
        }
        j = j - 1;
    }
    proof {
        lemma_le_val_bound(data@.subrange(pos as int, pos + w));
    }
    acc
}

/// Appends the `w` little-endian bytes of `v`.
pub fn push_le(out: &mut Vec<u8>, v: u64, w: usize)
    requires
        1 <= w <= 8,
        v < pow256(w as nat),
    ensures
        final(out)@ == old(out)@ + le_bytes(v as nat, w as nat),
{
    let ghost orig = out@;
    let mut cur: u64 = v;
    let mut i: usize = 0;
    while i < w
        invariant
            0 <= i <= w <= 8,
            le_bytes(v as nat, w as nat) == out@.skip(orig.len() as int) + le_bytes(
                cur as nat,
                (w - i) as nat,
            ),
            out@.len() == orig.len() + i,
            out@.subrange(0, orig.len() as int) =~= orig,
        decreases w - i,
    {
        let b: u8 = (cur % 256) as u8;
        let ghost prev = out@;
        out.push(b);
        proof {
            let rest = le_bytes(cur as nat, (w - i) as nat);
            assert(rest == seq![(cur as nat % 256) as u8] + le_bytes(
                cur as nat / 256,
                (w - i - 1) as nat,
            ));
            assert(out@.skip(orig.len() as int) =~= prev.skip(orig.len() as int).push(b));
            assert(out@.skip(orig.len() as int) + le_bytes(cur as nat / 256, (w - i - 1) as nat)
                =~= prev.skip(orig.len() as int) + rest);
        }
        cur = cur / 256;
        i = i + 1;
    }
    proof {
        assert(le_bytes(cur as nat, 0) =~= Seq::<u8>::empty());
        assert(out@ =~= orig + out@.skip(orig.len() as int));
        assert(out@.skip(orig.len() as int) + le_bytes(cur as nat, 0) =~= out@.skip(
            orig.len() as int,
        ));
    }
}

} // verus!
