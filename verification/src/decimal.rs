use vstd::prelude::*;

verus! {

pub open spec fn is_digit(b: u8) -> bool {
    48 <= b <= 57
}

pub open spec fn all_digits(t: Seq<u8>) -> bool {
    forall|i: int| 0 <= i < t.len() ==> is_digit(#[trigger] t[i])
}

/// The decimal digits of `n`, most significant first, with no sign and no
/// leading zero (except for `n == 0` itself).
pub open spec fn dec_digits(n: nat) -> Seq<u8>
    decreases n,
{
    if n < 10 {
        seq![(n + 48) as u8]
    } else {
        dec_digits(n / 10).push(((n % 10) + 48) as u8)
    }
}

/// The textual form of a signed integer: a minus sign for negative values,
/// then the decimal digits of the magnitude.
pub open spec fn int_text(v: int) -> Seq<u8> {
    if v < 0 {
        seq![45u8] + dec_digits((-v) as nat)
    } else {
        dec_digits(v as nat)
    }
}

/// The value of a digit string.
pub open spec fn uint_val(t: Seq<u8>) -> int
    decreases t.len(),
{
    if t.len() == 0 {
        0
    } else {
        10 * uint_val(t.drop_last()) + (t.last() - 48)
    }
}

/// The value of a non-empty all-digit string, and `None` otherwise.
pub open spec fn digits_val_opt(d: Seq<u8>) -> Option<int> {
    if d.len() >= 1 && all_digits(d) {
        Some(uint_val(d))
    } else {
        None
    }
}

/// What standard unsigned decimal parsing accepts: an optional leading
/// `+`, then one or more digits.
pub open spec fn spec_parse_uint(t: Seq<u8>) -> Option<int> {
    if t.len() >= 1 && t[0] == 43 {
        digits_val_opt(t.skip(1))
    } else {
        digits_val_opt(t)
    }
}

/// What standard signed decimal parsing accepts: an optional leading `+`
/// or `-`, then one or more digits.
pub open spec fn spec_parse_int(t: Seq<u8>) -> Option<int> {
    if t.len() >= 1 && t[0] == 45 {
        match digits_val_opt(t.skip(1)) {
            Some(v) => Some(-v),
            None => None,
        }
    } else if t.len() >= 1 && t[0] == 43 {
        digits_val_opt(t.skip(1))
    } else {
        digits_val_opt(t)
    }
}

pub proof fn lemma_uint_val_nonneg(t: Seq<u8>)
    requires
        all_digits(t),
    ensures
        uint_val(t) >= 0,
    decreases t.len(),
{
    if t.len() > 0 {
        assert(all_digits(t.drop_last())) by {
            assert(forall|i: int|
                0 <= i < t.len() - 1 ==> #[trigger] t.drop_last()[i] == t[i]);
        }
        lemma_uint_val_nonneg(t.drop_last());
    }
}

/// A digit string's value never falls when more digits follow.
pub proof fn lemma_uint_val_prefix_le(t: Seq<u8>, j: int)
    requires
        all_digits(t),
        0 <= j <= t.len(),
    ensures
        uint_val(t.take(j)) <= uint_val(t),
    decreases t.len() - j,
{
    if j == t.len() {
        assert(t.take(j) =~= t);
    } else {
        lemma_uint_val_prefix_le(t, j + 1);
        assert(t.take(j + 1).drop_last() =~= t.take(j));
        assert(all_digits(t.take(j))) by {
            assert(forall|i: int| 0 <= i < j ==> #[trigger] t.take(j)[i] == t[i]);
        }
        lemma_uint_val_nonneg(t.take(j));
        assert(uint_val(t.take(j + 1)) == 10 * uint_val(t.take(j)) + (t[j] - 48));
    }
}

pub proof fn lemma_dec_digits_wf(n: nat)
    ensures
        dec_digits(n).len() >= 1,
        all_digits(dec_digits(n)),
        is_digit(dec_digits(n)[0]),
    decreases n,
{
    if n >= 10 {
        lemma_dec_digits_wf(n / 10);
    }
}

/// Reading the digits of `n` back yields `n`.
pub proof fn lemma_dec_digits_val(n: nat)
    ensures
        uint_val(dec_digits(n)) == n,
    decreases n,
{
    if n < 10 {
        let t = dec_digits(n);
        assert(t =~= seq![(n + 48) as u8]);
        assert(t.drop_last() =~= Seq::<u8>::empty());
        assert(uint_val(Seq::<u8>::empty()) == 0);
        assert(t.last() == (n + 48) as u8);
        assert(uint_val(t) == 10 * uint_val(t.drop_last()) + (t.last() - 48));
    } else {
        lemma_dec_digits_val(n / 10);
        lemma_dec_digits_wf(n / 10);
        let t = dec_digits(n);
        assert(t == dec_digits(n / 10).push(((n % 10) + 48) as u8));
        assert(t.drop_last() =~= dec_digits(n / 10));
        assert(t.last() == ((n % 10) + 48) as u8);
        assert(uint_val(t) == 10 * uint_val(t.drop_last()) + (t.last() - 48));
    }
}

/// Formatting an unsigned value and parsing it back round-trips.
pub proof fn lemma_uint_round_trip(n: nat)
    ensures
        spec_parse_uint(dec_digits(n)) == Some(n as int),
        spec_parse_int(dec_digits(n)) == Some(n as int),
{
    lemma_dec_digits_wf(n);
    lemma_dec_digits_val(n);
}

/// Formatting a signed value and parsing it back round-trips.
pub proof fn lemma_int_round_trip(v: int)
    ensures
        spec_parse_int(int_text(v)) == Some(v),
{
    if v < 0 {
        lemma_dec_digits_wf((-v) as nat);
        lemma_dec_digits_val((-v) as nat);
        let t = int_text(v);
        assert(t[0] == 45);
        assert(t.skip(1) =~= dec_digits((-v) as nat));
    } else {
        lemma_uint_round_trip(v as nat);
    }
}

/// Appends the decimal digits of `n`.
pub fn push_u64_text(out: &mut Vec<u8>, n: u64)
    ensures
        final(out)@ == old(out)@ + dec_digits(n as nat),
{
    let mut tail: Vec<u8> = Vec::new();
    let mut cur: u64 = n;
    while cur >= 10
        invariant
            dec_digits(n as nat) == dec_digits(cur as nat) + tail@,
        decreases cur,
    {
        let d: u8 = ((cur % 10) + 48) as u8;
        proof {
            assert(dec_digits(cur as nat) =~= dec_digits(cur as nat / 10) + seq![d]);
            assert(dec_digits(cur as nat / 10) + (seq![d] + tail@) =~= (dec_digits(
                cur as nat / 10,
            ) + seq![d]) + tail@);
        }
        tail.insert(0, d);
        cur = cur / 10;
    }
    let d: u8 = (cur + 48) as u8;
    tail.insert(0, d);
    proof {
        assert(dec_digits(cur as nat) =~= seq![d]);
        assert(tail@ =~= dec_digits(n as nat));
    }
    let mut i: usize = 0;
    let m = tail.len();
    while i < m
        invariant
            0 <= i <= m,
            m == tail@.len(),
            out@ == old(out)@ + tail@.take(i as int),
        decreases m - i,
    {
        let b = tail[i];
        out.push(b);
        proof {
            assert(old(out)@ + tail@.take(i + 1) =~= (old(out)@ + tail@.take(i as int)).push(
                b,
            ));
        }
        i = i + 1;
    }
    proof {
        assert(tail@.take(m as int) =~= tail@);
    }
}

/// Appends the decimal text of a sign-and-magnitude integer.
pub fn push_int_text(out: &mut Vec<u8>, neg: bool, m: u64)
    requires
        neg ==> m >= 1,
    ensures
        final(out)@ == old(out)@ + int_text(if neg { -(m as int) } else { m as int }),
{
    if neg {
        out.push(45);
        proof {
            assert(old(out)@.push(45u8) =~= old(out)@ + seq![45u8]);
        }
    }
    push_u64_text(out, m);
    proof {
        if neg {
            assert(old(out)@ + seq![45u8] + dec_digits(m as nat) =~= old(out)@ + (seq![45u8]
                + dec_digits(m as nat)));
        }
    }
}

/// The value of a non-empty digit string when it fits in a `u64`.
pub open spec fn spec_digits_u64(d: Seq<u8>) -> Option<u64> {
    match digits_val_opt(d) {
        Some(v) => if v <= u64::MAX {
            Some(v as u64)
        } else {
            None
        },
        None => None,
    }
}

fn parse_digits(t: &Vec<u8>, off: usize) -> (r: Option<u64>)
    requires
        off <= t@.len(),
    ensures
        r == spec_digits_u64(t@.skip(off as int)),
{
    let ghost d = t@.skip(off as int);
    let n = t.len();
    if off >= n {
        return None;
    }
    let mut acc: u64 = 0;
    let mut j: usize = off;
    while j < n
        invariant
            off <= j <= n,
            n == t@.len(),
            off < n,
            d == t@.skip(off as int),
            all_digits(d.take(j - off)),
            acc == uint_val(d.take(j - off)),
        decreases n - j,
    {
        let b = t[j];
        if b < 48 || b > 57 {
            proof {
                assert(d[j - off] == t@[j as int]);
                assert(!all_digits(d));
            }
            return None;
        }
        let dv: u64 = (b - 48) as u64;
        proof {
            assert(d.take(j - off + 1).drop_last() =~= d.take(j - off));
            assert(d.take(j - off + 1).last() == t@[j as int]);
            assert(all_digits(d.take(j - off + 1))) by {
                assert(forall|i: int|
                    0 <= i < j - off + 1 ==> #[trigger] d.take(j - off + 1)[i] == d[i]);
                assert(forall|i: int|
                    0 <= i < j - off ==> #[trigger] d.take(j - off)[i] == d.take(
                        j - off + 1,
                    )[i]);
            }
        }
        if acc > (u64::MAX - dv) / 10 {
            proof {
                assert(10 * acc + dv > u64::MAX);
                lemma_uint_val_nonneg(d.take(j - off));
                if all_digits(d) {
                    lemma_uint_val_prefix_le(d, j - off + 1);
                    assert(uint_val(d.take(j - off + 1)) == 10 * acc + (t@[j as int] - 48));
                    assert(uint_val(d) > u64::MAX);
                }
            }
            return None;
        }
        proof {
            assert(uint_val(d.take(j - off + 1)) == 10 * acc + (t@[j as int] - 48));
        }
        acc = acc * 10 + dv;
        j = j + 1;
    }
    proof {
        assert(d.take(n - off) =~= d);
    }
    Some(acc)
}

/// What standard unsigned parsing into a `u64` yields.
pub open spec fn spec_parse_u64(t: Seq<u8>) -> Option<u64> {
    match spec_parse_uint(t) {
        Some(v) => if v <= u64::MAX {
            Some(v as u64)
        } else {
            None
        },
        None => None,
    }
}

/// Parses an unsigned decimal token as standard parsing would.
pub fn parse_u64_token(t: &Vec<u8>) -> (r: Option<u64>)
    ensures
        r == spec_parse_u64(t@),
{
    let n = t.len();
    if n == 0 {
        return None;
    }
    if t[0] == 43 {
        parse_digits(t, 1)
    } else {
        let r = parse_digits(t, 0);
        proof {
            assert(t@.skip(0) =~= t@);
        }
        r
    }
}

/// Sign and magnitude that standard signed parsing yields, when the
/// magnitude fits in a `u64`; the sign of zero is canonically positive.
pub open spec fn spec_sign_mag(t: Seq<u8>) -> Option<(bool, u64)> {
    match spec_parse_int(t) {
        Some(v) => if v >= 0 {
            if v <= u64::MAX {
                Some((false, v as u64))
            } else {
                None
            }
        } else {
            if -v <= u64::MAX {
                Some((true, (-v) as u64))
            } else {
                None
            }
        },
        None => None,
    }
}

/// Parses a signed decimal token as standard parsing would, returning the
/// sign and the magnitude.
pub fn parse_sign_mag(t: &Vec<u8>) -> (r: Option<(bool, u64)>)
    ensures
        r == spec_sign_mag(t@),
{
    let n = t.len();
    if n == 0 {
        return None;
    }
    proof {
        if digits_val_opt(t@.skip(1)) is Some {
            lemma_uint_val_nonneg(t@.skip(1));
        }
        if digits_val_opt(t@) is Some {
            lemma_uint_val_nonneg(t@);
        }
        assert(t@.skip(0) =~= t@);
    }
    if t[0] == 45 {
        match parse_digits(t, 1) {
            Some(m) => Some((m != 0, m)),
            None => None,
        }
    } else if t[0] == 43 {
        match parse_digits(t, 1) {
            Some(m) => Some((false, m)),
            None => None,
        }
    } else {
        match parse_digits(t, 0) {
            Some(m) => Some((false, m)),
            None => None,
        }
    }
}

} // verus!
