//! Byte-sequence helpers shared by the encoders.

use vstd::prelude::*;

verus! {

/// Appends all bytes of `src` to `out`.
pub fn append_bytes(out: &mut Vec<u8>, src: &[u8])
    ensures
        final(out)@ == old(out)@ + src@,
{
    let n = src.len();
    let ghost start = out@;
    let mut i: usize = 0;
    while i < n
        invariant
            n == src@.len(),
            i <= n,
            out@ == start + src@.subrange(0, i as int),
        decreases n - i,
    {
        out.push(src[i]);
        i = i + 1;
        assert(src@.subrange(0, i as int) =~= src@.subrange(0, (i - 1) as int).push(src@[i - 1]));
    }
    assert(src@.subrange(0, n as int) =~= src@);
}

/// Copies `b[start..start + N]` into an array.
pub fn read_array<const N: usize>(b: &[u8], start: usize) -> (r: [u8; N])
    requires
        start + N <= b@.len(),
    ensures
        r@ == b@.subrange(start as int, start + N),
{
    let len = b.len();
    let mut r: [u8; N] = [0u8; N];
    let mut i: usize = 0;
    while i < N
        invariant
            len == b@.len(),
            start + N <= len,
            i <= N,
            r@.len() == N,
            forall|j: int| 0 <= j < i ==> r@[j] == b@[start + j],
        decreases N - i,
    {
        r[i] = b[start + i];
        i = i + 1;
    }
    assert(r@ =~= b@.subrange(start as int, start + N));
    r
}

/// Whether two byte strings are equal.
pub fn bytes_eq(a: &[u8], b: &[u8]) -> (r: bool)
    ensures
        r == (a@ == b@),
{
    if a.len() != b.len() {
        return false;
    }
    let n = a.len();
    let mut i: usize = 0;
    while i < n
        invariant
            n == a@.len(),
            n == b@.len(),
            i <= n,
            forall|j: int| 0 <= j < i ==> a@[j] == b@[j],
        decreases n - i,
    {
        if a[i] != b[i] {
            return false;
        }
        i = i + 1;
    }
    assert(a@ =~= b@);
    true
}

/// Lexicographic order on byte strings: `a` sorts strictly before `b`.
pub open spec fn spec_lex_lt(a: Seq<u8>, b: Seq<u8>) -> bool
    decreases a.len(),
{
    if a.len() == 0 {
        b.len() > 0
    } else if b.len() == 0 {
        false
    } else if a[0] < b[0] {
        true
    } else if a[0] > b[0] {
        false
    } else {
        spec_lex_lt(a.drop_first(), b.drop_first())
    }
}

/// Whether `a` sorts strictly before `b` in lexicographic byte order.
pub fn bytes_lt(a: &[u8], b: &[u8]) -> (r: bool)
    ensures
        r == spec_lex_lt(a@, b@),
{
    let na = a.len();
    let nb = b.len();
    let mut i: usize = 0;
    assert(a@.skip(0) =~= a@ && b@.skip(0) =~= b@);
    while i < na && i < nb
        invariant
            na == a@.len(),
            nb == b@.len(),
            i <= na,
            i <= nb,
            spec_lex_lt(a@, b@) == spec_lex_lt(a@.skip(i as int), b@.skip(i as int)),
        decreases na - i,
    {
        let ghost sa = a@.skip(i as int);
        let ghost sb = b@.skip(i as int);
        assert(sa[0] == a@[i as int] && sb[0] == b@[i as int]);
        if a[i] < b[i] {
            return true;
        }
        if a[i] > b[i] {
            return false;
        }
        assert(sa.drop_first() =~= a@.skip(i + 1));
        assert(sb.drop_first() =~= b@.skip(i + 1));
        i = i + 1;
    }
    let ghost sa = a@.skip(i as int);
    let ghost sb = b@.skip(i as int);
    assert(sa.len() == na - i && sb.len() == nb - i);
    i == na && i < nb
}

/// Two strings that agree before position `i` and differ at `i` are ordered by
/// their bytes at `i`.
pub proof fn lemma_lex_lt_first_difference(x: Seq<u8>, y: Seq<u8>, i: int)
    requires
        0 <= i < x.len(),
        i < y.len(),
        x.subrange(0, i) == y.subrange(0, i),
        x[i] < y[i],
    ensures
        spec_lex_lt(x, y),
    decreases i,
{
    if i > 0 {
        assert(x[0] == x.subrange(0, i)[0]);
        assert(y[0] == y.subrange(0, i)[0]);
        assert(x.drop_first().subrange(0, i - 1) =~= x.subrange(0, i).drop_first());
        assert(y.drop_first().subrange(0, i - 1) =~= y.subrange(0, i).drop_first());
        lemma_lex_lt_first_difference(x.drop_first(), y.drop_first(), i - 1);
    }
}


/// No byte string sorts before itself.
pub proof fn lemma_lex_lt_irreflexive(a: Seq<u8>)
    ensures
        !spec_lex_lt(a, a),
    decreases a.len(),
{
    if a.len() > 0 {
        lemma_lex_lt_irreflexive(a.drop_first());
    }
}

/// The order is asymmetric.
pub proof fn lemma_lex_lt_asymmetric(a: Seq<u8>, b: Seq<u8>)
    requires
        spec_lex_lt(a, b),
    ensures
        !spec_lex_lt(b, a),
    decreases a.len(),
{
    if a.len() > 0 && b.len() > 0 && a[0] == b[0] {
        lemma_lex_lt_asymmetric(a.drop_first(), b.drop_first());
    }
}

/// The order is transitive.
pub proof fn lemma_lex_lt_transitive(a: Seq<u8>, b: Seq<u8>, c: Seq<u8>)
    requires
        spec_lex_lt(a, b),
        spec_lex_lt(b, c),
    ensures
        spec_lex_lt(a, c),
    decreases a.len(),
{
    if a.len() > 0 && b.len() > 0 && c.len() > 0 && a[0] == b[0] && b[0] == c[0] {
        lemma_lex_lt_transitive(a.drop_first(), b.drop_first(), c.drop_first());
    }
}

/// Any two byte strings are equal or ordered one way or the other.
pub proof fn lemma_lex_lt_total(a: Seq<u8>, b: Seq<u8>)
    ensures
        a == b || spec_lex_lt(a, b) || spec_lex_lt(b, a),
    decreases a.len(),
{
    if a.len() == 0 && b.len() == 0 {
        assert(a =~= b);
    } else if a.len() > 0 && b.len() > 0 && a[0] == b[0] {
        lemma_lex_lt_total(a.drop_first(), b.drop_first());
        if a.drop_first() == b.drop_first() {
            assert(a =~= seq![a[0]] + a.drop_first());
            assert(b =~= seq![b[0]] + b.drop_first());
        }
    }
}

} // verus!
