use vstd::prelude::*;

verus! {

/// Token separators inside a line: space, tab, carriage return.
pub open spec fn is_space(b: u8) -> bool {
    b == 32 || b == 9 || b == 13
}

/// A piece of text that the tokenizer hands back whole: non-empty, with
/// no separator and no newline inside.
pub open spec fn wf_token(t: Seq<u8>) -> bool {
    t.len() >= 1 && forall|i: int| 0 <= i < t.len() ==> !is_space(#[trigger] t[i]) && t[i] != 10
}

/// Index of the first newline at or after `from`, or the length.
pub open spec fn find_nl(s: Seq<u8>, from: int) -> int
    decreases s.len() - from when 0 <= from <= s.len()
{
    if from >= s.len() {
        s.len() as int
    } else if s[from] == 10 {
        from
    } else {
        find_nl(s, from + 1)
    }
}

pub proof fn lemma_find_nl(s: Seq<u8>, from: int)
    requires
        0 <= from <= s.len(),
    ensures
        from <= find_nl(s, from) <= s.len(),
        forall|j: int| from <= j < find_nl(s, from) ==> #[trigger] s[j] != 10,
        find_nl(s, from) < s.len() ==> s[find_nl(s, from)] == 10,
    decreases s.len() - from,
{
    if from < s.len() && s[from] != 10 {
        lemma_find_nl(s, from + 1);
    }
}

/// A run of newline-free bytes followed by a newline pins the search down.
pub proof fn lemma_find_nl_concat(s: Seq<u8>, a: int, b: int)
    requires
        0 <= a <= b <= s.len(),
        forall|j: int| a <= j < b ==> #[trigger] s[j] != 10,
        b < s.len() ==> s[b] == 10,
        b == s.len() || s[b] == 10,
    ensures
        find_nl(s, a) == b,
    decreases b - a,
{
    if a < b {
        lemma_find_nl_concat(s, a + 1, b);
    }
}

/// Index of the first separator at or after `from`, or the length.
pub open spec fn tok_end(s: Seq<u8>, from: int) -> int
    decreases s.len() - from when 0 <= from <= s.len()
{
    if from >= s.len() {
        s.len() as int
    } else if is_space(s[from]) {
        from
    } else {
        tok_end(s, from + 1)
    }
}

pub proof fn lemma_tok_end(s: Seq<u8>, from: int)
    requires
        0 <= from <= s.len(),
    ensures
        from <= tok_end(s, from) <= s.len(),
        forall|j: int| from <= j < tok_end(s, from) ==> !is_space(#[trigger] s[j]),
        tok_end(s, from) < s.len() ==> is_space(s[tok_end(s, from)]),
    decreases s.len() - from,
{
    if from < s.len() && !is_space(s[from]) {
        lemma_tok_end(s, from + 1);
    }
}

pub proof fn lemma_tok_end_concat(s: Seq<u8>, a: int, b: int)
    requires
        0 <= a <= b <= s.len(),
        forall|j: int| a <= j < b ==> !is_space(#[trigger] s[j]),
        b == s.len() || is_space(s[b]),
    ensures
        tok_end(s, a) == b,
    decreases b - a,
{
    if a < b {
        lemma_tok_end_concat(s, a + 1, b);
    }
}

/// The whitespace-separated tokens of `s` from `from` on.
pub open spec fn tokens_of_from(s: Seq<u8>, from: int) -> Seq<Seq<u8>>
    decreases s.len() - from when 0 <= from <= s.len() via tokens_of_from_dec
{
    if from >= s.len() {
        Seq::empty()
    } else if is_space(s[from]) {
        tokens_of_from(s, from + 1)
    } else {
        seq![s.subrange(from, tok_end(s, from))] + tokens_of_from(s, tok_end(s, from))
    }
}

#[via_fn]
proof fn tokens_of_from_dec(s: Seq<u8>, from: int) {
    if 0 <= from < s.len() && !is_space(s[from]) {
        lemma_tok_end(s, from);
    }
}

/// The whitespace-separated tokens of a line.
pub open spec fn tokens_of(s: Seq<u8>) -> Seq<Seq<u8>> {
    tokens_of_from(s, 0)
}

/// The tokens joined by single spaces, in order.
pub open spec fn join_sp(toks: Seq<Seq<u8>>) -> Seq<u8>
    decreases toks.len(),
{
    if toks.len() == 0 {
        Seq::empty()
    } else if toks.len() == 1 {
        toks[0]
    } else {
        toks[0] + seq![32u8] + join_sp(toks.skip(1))
    }
}

pub open spec fn all_wf_tokens(toks: Seq<Seq<u8>>) -> bool {
    forall|i: int| 0 <= i < toks.len() ==> wf_token(#[trigger] toks[i])
}

/// A joined line holds no newline.
pub proof fn lemma_join_sp_no_nl(toks: Seq<Seq<u8>>)
    requires
        all_wf_tokens(toks),
    ensures
        forall|j: int| 0 <= j < join_sp(toks).len() ==> #[trigger] join_sp(toks)[j] != 10,
    decreases toks.len(),
{
    if toks.len() == 0 {
    } else if toks.len() == 1 {
        assert(wf_token(toks[0]));
    } else {
        assert(forall|i: int| 0 <= i < toks.skip(1).len() ==> wf_token(#[trigger] toks.skip(1)[i]));
        lemma_join_sp_no_nl(toks.skip(1));
        assert(wf_token(toks[0]));
        let s = join_sp(toks);
        let t0 = toks[0];
        let rest = join_sp(toks.skip(1));
        assert(forall|j: int| 0 <= j < s.len() ==> s[j] != 10) by {
            assert(forall|j: int| 0 <= j < t0.len() ==> #[trigger] s[j] == t0[j]);
            assert(s[t0.len() as int] == 32);
            assert(forall|j: int|
                t0.len() + 1 <= j < s.len() ==> #[trigger] s[j] == rest[j - t0.len() - 1]);
        }
    }
}

/// Splitting a position off the front commutes with tokenizing.
pub proof fn lemma_tokens_shift(s: Seq<u8>, i: int)
    requires
        0 <= i <= s.len(),
    ensures
        tokens_of_from(s, i) == tokens_of(s.skip(i)),
    decreases s.len() - i,
{
    let u = s.skip(i);
    if i >= s.len() {
        assert(u.len() == 0);
    } else if is_space(s[i]) {
        lemma_tokens_shift(s, i + 1);
        assert(u[0] == s[i]);
        assert(s.skip(i + 1) =~= u.skip(1));
        lemma_tokens_shift(u, 1);
    } else {
        let e = tok_end(s, i);
        lemma_tok_end(s, i);
        assert(u[0] == s[i]);
        lemma_tok_end_shifted(s, i, i);
        assert(tok_end(u, 0) == e - i);
        assert(u.subrange(0, e - i) =~= s.subrange(i, e));
        lemma_tokens_shift(s, e);
        assert(s.skip(e) =~= u.skip(e - i));
        lemma_tokens_shift(u, e - i);
    }
}

proof fn lemma_tokens_skip_one_space(u: Seq<u8>)
    requires
        u.len() >= 1,
        is_space(u[0]),
    ensures
        tokens_of(u) == tokens_of(u.skip(1)),
{
    assert(tokens_of(u) == tokens_of_from(u, 1));
    lemma_tokens_shift(u, 1);
}

/// The end of a token is unmoved by dropping a prefix before it.
proof fn lemma_tok_end_shifted(s: Seq<u8>, i: int, k: int)
    requires
        0 <= i <= k <= s.len(),
    ensures
        tok_end(s.skip(i), k - i) == tok_end(s, k) - i,
    decreases s.len() - k,
{
    let u = s.skip(i);
    if k >= s.len() {
    } else {
        assert(u[k - i] == s[k]);
        if !is_space(s[k]) {
            lemma_tok_end_shifted(s, i, k + 1);
        }
    }
}

/// Tokenizing a line of joined well-formed tokens returns the tokens.
pub proof fn lemma_tokens_of_join(toks: Seq<Seq<u8>>)
    requires
        all_wf_tokens(toks),
    ensures
        tokens_of(join_sp(toks)) == toks,
    decreases toks.len(),
{
    let s = join_sp(toks);
    if toks.len() == 0 {
        assert(tokens_of(s) =~= toks);
    } else {
        let t0 = toks[0];
        assert(wf_token(t0));
        if toks.len() == 1 {
            assert(s == t0);
            assert(forall|j: int| 0 <= j < s.len() ==> !is_space(#[trigger] s[j]));
            lemma_tok_end_concat(s, 0, s.len() as int);
            assert(tokens_of(s) == seq![s.subrange(0, s.len() as int)] + tokens_of_from(
                s,
                s.len() as int,
            ));
            assert(s.subrange(0, s.len() as int) =~= t0);
            assert(tokens_of_from(s, s.len() as int) =~= Seq::<Seq<u8>>::empty());
            assert(tokens_of(s) =~= toks);
        } else {
            let rest = toks.skip(1);
            assert(forall|i: int| 0 <= i < rest.len() ==> wf_token(#[trigger] rest[i]));
            lemma_tokens_of_join(rest);
            let rj = join_sp(rest);
            assert(s == t0 + seq![32u8] + rj);
            assert(forall|j: int| 0 <= j < t0.len() ==> #[trigger] s[j] == t0[j]);
            assert(s[t0.len() as int] == 32);
            lemma_tok_end_concat(s, 0, t0.len() as int);
            assert(!is_space(s[0]));
            assert(tokens_of(s) == seq![s.subrange(0, t0.len() as int)] + tokens_of_from(
                s,
                t0.len() as int,
            ));
            assert(s.subrange(0, t0.len() as int) =~= t0);
            lemma_tokens_shift(s, t0.len() as int);
            assert(s.skip(t0.len() as int) =~= seq![32u8] + rj);
            let u = seq![32u8] + rj;
            assert(is_space(u[0]));
            lemma_tokens_skip_one_space(u);
            assert(u.skip(1) =~= rj);
            assert(tokens_of(s) == seq![t0] + tokens_of(rj));
            assert(seq![t0] + rest =~= toks);
        }
    }
}

/// Every token the tokenizer yields is well formed, when the line holds
/// no newline.
pub proof fn lemma_tokens_wf(s: Seq<u8>, from: int)
    requires
        0 <= from <= s.len(),
        forall|j: int| 0 <= j < s.len() ==> #[trigger] s[j] != 10,
    ensures
        all_wf_tokens(tokens_of_from(s, from)),
    decreases s.len() - from,
{
    if from >= s.len() {
    } else if is_space(s[from]) {
        lemma_tokens_wf(s, from + 1);
    } else {
        let e = tok_end(s, from);
        lemma_tok_end(s, from);
        lemma_tokens_wf(s, e);
        assert(wf_token(s.subrange(from, e))) by {
            assert(forall|j: int|
                0 <= j < e - from ==> #[trigger] s.subrange(from, e)[j] == s[from + j]);
        }
        assert(forall|i: int|
            0 <= i < tokens_of_from(s, from).len() ==> wf_token(
                #[trigger] tokens_of_from(s, from)[i],
            )) by {
            assert(forall|i: int|
                1 <= i < tokens_of_from(s, from).len() ==> tokens_of_from(s, from)[i]
                    == tokens_of_from(s, e)[i - 1]);
        }
    }
}

/// Index of the first newline at or after `from`.
pub fn find_newline(data: &Vec<u8>, from: usize) -> (r: usize)
    requires
        from <= data@.len(),
    ensures
        r == find_nl(data@, from as int),
{
    let n = data.len();
    let mut i: usize = from;
    while i < n && data[i] != 10
        invariant
            from <= i <= n,
            n == data@.len(),
            find_nl(data@, from as int) == find_nl(data@, i as int),
        decreases n - i,
    {
        i = i + 1;
    }
    i
}

/// Copy of the byte range `[a, b)`.
pub fn subvec(data: &Vec<u8>, a: usize, b: usize) -> (r: Vec<u8>)
    requires
        a <= b <= data@.len(),
    ensures
        r@ == data@.subrange(a as int, b as int),
{
    let mut r: Vec<u8> = Vec::new();
    let mut i: usize = a;
    while i < b
        invariant
            a <= i <= b <= data@.len(),
            r@ =~= data@.subrange(a as int, i as int),
        decreases b - i,
    {
        let x = data[i];
        r.push(x);
        proof {
            assert(r@ =~= data@.subrange(a as int, i + 1));
        }
        i = i + 1;
    }
    r
}

/// The tokens of a line, each a fresh vector, in order.
pub fn split_tokens(line: &Vec<u8>) -> (r: Vec<Vec<u8>>)
    ensures
        r@.map_values(|t: Vec<u8>| t@) == tokens_of(line@),
{
    let s = line;
    let n = s.len();
    let mut r: Vec<Vec<u8>> = Vec::new();
    let mut i: usize = 0;
    while i < n
        invariant
            0 <= i <= n,
            n == s@.len(),
            tokens_of(s@) == r@.map_values(|t: Vec<u8>| t@) + tokens_of_from(s@, i as int),
        decreases n - i,
    {
        let b = s[i];
        if b == 32 || b == 9 || b == 13 {
            i = i + 1;
        } else {
            let mut j: usize = i + 1;
            while j < n && !(s[j] == 32 || s[j] == 9 || s[j] == 13)
                invariant
                    i < j <= n,
                    n == s@.len(),
                    forall|k: int| i <= k < j ==> !is_space(#[trigger] s@[k]),
                decreases n - j,
            {
                j = j + 1;
            }
            proof {
                lemma_tok_end_concat(s@, i as int, j as int);
            }
            let tok = subvec(s, i, j);
            let ghost before = r@.map_values(|t: Vec<u8>| t@);
            r.push(tok);
            proof {
                assert(r@.map_values(|t: Vec<u8>| t@) =~= before.push(tok@));
                assert(before + tokens_of_from(s@, i as int) =~= before.push(tok@)
                    + tokens_of_from(s@, j as int));
            }
            i = j;
        }
    }
    proof {
        assert(tokens_of_from(s@, n as int) =~= Seq::<Seq<u8>>::empty());
        assert(tokens_of(s@) =~= r@.map_values(|t: Vec<u8>| t@));
    }
    r
}

} // verus!
