use vstd::prelude::*;
use vstd::arithmetic::div_mod::lemma_fundamental_div_mod_converse;
use crate::utils::{spec_be_to_u32, spec_ones, spec_u32_to_be};

verus! {

/// Byte-lexicographic order, the order in which the engine keeps its keys:
/// `a` comes strictly before `b`.
pub open spec fn lex_lt(a: Seq<u8>, b: Seq<u8>) -> bool
    decreases a.len(),
{
    if b.len() == 0 {
        false
    } else if a.len() == 0 {
        true
    } else if a[0] != b[0] {
        a[0] < b[0]
    } else {
        lex_lt(a.drop_first(), b.drop_first())
    }
}

/// `a` comes before `b` or is `b`.
pub open spec fn lex_le(a: Seq<u8>, b: Seq<u8>) -> bool {
    a == b || lex_lt(a, b)
}

/// A common prefix does not change the order of two keys.
pub proof fn lemma_lex_lt_common_prefix(p: Seq<u8>, a: Seq<u8>, b: Seq<u8>)
    ensures
        lex_lt(p + a, p + b) == lex_lt(a, b),
    decreases p.len(),
{
    if p.len() == 0 {
        assert(p + a =~= a);
        assert(p + b =~= b);
    } else {
        assert((p + a).drop_first() =~= p.drop_first() + a);
        assert((p + b).drop_first() =~= p.drop_first() + b);
        lemma_lex_lt_common_prefix(p.drop_first(), a, b);
    }
}

/// A key comes before every longer key that starts with it.
pub proof fn lemma_lex_le_extension(p: Seq<u8>, k: Seq<u8>)
    ensures
        lex_le(p, p + k),
{
    if k.len() == 0 {
        assert(p + k =~= p);
    } else {
        lemma_lex_lt_common_prefix(p, Seq::<u8>::empty(), k);
        assert(p + Seq::<u8>::empty() =~= p);
    }
}

/// Of two keys, at most one comes before the other.
pub proof fn lemma_lex_lt_asymmetric(a: Seq<u8>, b: Seq<u8>)
    requires
        lex_lt(a, b),
    ensures
        !lex_lt(b, a),
        a != b,
    decreases a.len(),
{
    if a.len() > 0 && b.len() > 0 && a[0] == b[0] {
        lemma_lex_lt_asymmetric(a.drop_first(), b.drop_first());
    }
}

/// Two keys that differ within their first bytes order by those bytes,
/// whatever follows.
pub proof fn lemma_lex_lt_extend(p: Seq<u8>, q: Seq<u8>, a: Seq<u8>, b: Seq<u8>)
    requires
        p.len() == q.len(),
        lex_lt(p, q),
    ensures
        lex_lt(p + a, q + b),
    decreases p.len(),
{
    if p.len() > 0 && p[0] == q[0] {
        assert((p + a).drop_first() =~= p.drop_first() + a);
        assert((q + b).drop_first() =~= q.drop_first() + b);
        lemma_lex_lt_extend(p.drop_first(), q.drop_first(), a, b);
    }
}

/// A key of a table with a smaller id comes before every key of a table
/// with a greater id.
pub proof fn lemma_tables_in_order(k1: Seq<u8>, k2: Seq<u8>)
    requires
        k1.len() >= 4,
        k2.len() >= 4,
        spec_be_to_u32(k1.subrange(0, 4)) < spec_be_to_u32(k2.subrange(0, 4)),
    ensures
        lex_lt(k1, k2),
        !lex_le(k2, k1),
{
    let t1 = k1.subrange(0, 4);
    let t2 = k2.subrange(0, 4);
    lemma_be_bytes_round_trip(t1);
    lemma_be_bytes_round_trip(t2);
    lemma_be_order(spec_be_to_u32(t1), spec_be_to_u32(t2));
    lemma_lex_lt_extend(t1, t2, k1.subrange(4, k1.len() as int), k2.subrange(4, k2.len() as int));
    assert(k1 =~= t1 + k1.subrange(4, k1.len() as int));
    assert(k2 =~= t2 + k2.subrange(4, k2.len() as int));
    lemma_lex_lt_asymmetric(k1, k2);
}

/// A key of at most `n` bytes comes before `n + 1` bytes of `0xFF`.
pub proof fn lemma_lex_lt_ones(k: Seq<u8>, n: nat)
    requires
        k.len() <= n,
    ensures
        lex_lt(k, spec_ones(n + 1)),
    decreases k.len(),
{
    let ones = spec_ones(n + 1);
    if k.len() > 0 && k[0] == ones[0] {
        assert(ones.drop_first() =~= spec_ones(n));
        lemma_lex_lt_ones(k.drop_first(), (n - 1) as nat);
    }
}

/// Writing a number out in big-endian bytes and reading it back gives the
/// number.
pub proof fn lemma_be_round_trip(n: u32)
    ensures
        spec_u32_to_be(n).len() == 4,
        spec_be_to_u32(spec_u32_to_be(n)) == n,
{
    let x = n as int;
    let hi = x / 0x100_0000;
    let mid = x / 0x1_0000;
    let lo = x / 0x100;
    assert(x == 0x100 * lo + x % 0x100);
    assert(lo == 0x100 * (lo / 0x100) + lo % 0x100);
    assert(lo / 0x100 == mid);
    assert(mid == 0x100 * (mid / 0x100) + mid % 0x100);
    assert(mid / 0x100 == hi);
    assert(0 <= hi < 0x100);
    assert(mid % 0x100 == mid - 0x100 * hi);
}

/// Reading four bytes as a big-endian number and writing it out gives the
/// bytes.
pub proof fn lemma_be_bytes_round_trip(b: Seq<u8>)
    requires
        b.len() == 4,
    ensures
        spec_u32_to_be(spec_be_to_u32(b)) == b,
{
    let b0 = b[0] as int;
    let b1 = b[1] as int;
    let b2 = b[2] as int;
    let b3 = b[3] as int;
    let n = b0 * 0x100_0000 + b1 * 0x1_0000 + b2 * 0x100 + b3;
    assert(spec_be_to_u32(b) == n);
    lemma_fundamental_div_mod_converse(n, 0x100_0000, b0, b1 * 0x1_0000 + b2 * 0x100 + b3);
    lemma_fundamental_div_mod_converse(n, 0x1_0000, b0 * 0x100 + b1, b2 * 0x100 + b3);
    lemma_fundamental_div_mod_converse(n, 0x100, b0 * 0x1_0000 + b1 * 0x100 + b2, b3);
    lemma_fundamental_div_mod_converse(b0 * 0x100 + b1, 0x100, b0, b1);
    lemma_fundamental_div_mod_converse(b0 * 0x1_0000 + b1 * 0x100 + b2, 0x100, b0 * 0x100 + b1, b2);
    assert(spec_u32_to_be(spec_be_to_u32(b)) =~= b);
}

/// Two strings of four bytes order by their first differing byte.
proof fn lemma_lex_lt_four(x: Seq<u8>, y: Seq<u8>)
    requires
        x.len() == 4,
        y.len() == 4,
    ensures
        lex_lt(x, y) == (x[0] < y[0] || (x[0] == y[0] && (x[1] < y[1] || (x[1] == y[1] && (x[2]
            < y[2] || (x[2] == y[2] && x[3] < y[3])))))),
{
    reveal_with_fuel(lex_lt, 5);
    assert(x.drop_first() =~= seq![x[1], x[2], x[3]]);
    assert(y.drop_first() =~= seq![y[1], y[2], y[3]]);
    assert(x.drop_first().drop_first() =~= seq![x[2], x[3]]);
    assert(y.drop_first().drop_first() =~= seq![y[2], y[3]]);
    assert(x.drop_first().drop_first().drop_first() =~= seq![x[3]]);
    assert(y.drop_first().drop_first().drop_first() =~= seq![y[3]]);
    assert(x.drop_first().drop_first().drop_first().drop_first() =~= Seq::<u8>::empty());
    assert(y.drop_first().drop_first().drop_first().drop_first() =~= Seq::<u8>::empty());
}

/// Big-endian bytes order as the numbers do.
pub proof fn lemma_be_order(a: u32, b: u32)
    ensures
        lex_lt(spec_u32_to_be(a), spec_u32_to_be(b)) == (a < b),
{
    let x = spec_u32_to_be(a);
    let y = spec_u32_to_be(b);
    lemma_be_round_trip(a);
    lemma_be_round_trip(b);
    lemma_lex_lt_four(x, y);
    assert(a == x[0] as int * 0x100_0000 + x[1] as int * 0x1_0000 + x[2] as int * 0x100
        + x[3] as int);
    assert(b == y[0] as int * 0x100_0000 + y[1] as int * 0x1_0000 + y[2] as int * 0x100
        + y[3] as int);
}

} // verus!
