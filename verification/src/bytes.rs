//! Fixed-width big-endian integer encoding: the leaf level of the codec.
//!
//! [`spec_be`] gives the `k`-byte big-endian encoding of (the low `k` bytes
//! of) a number, [`be_val`] reads a byte string back as a number, and the
//! lemmas here say that the two invert each other. The executable
//! [`push_be`] and [`read_be`] mirror the two spec functions exactly.

use vstd::prelude::*;
use vstd::arithmetic::div_mod::lemma_fundamental_div_mod;
use vstd::arithmetic::div_mod::lemma_fundamental_div_mod_converse;

verus! {

/// 256 to the power `k`: the number of distinct values of a `k`-byte field.
pub open spec fn pow256(k: nat) -> nat
    decreases k,
{
    if k == 0 {
        1
    } else {
        256 * pow256((k - 1) as nat)
    }
}

/// The big-endian encoding of the low `k` bytes of `n`: most significant
/// byte first. Bytes of `n` above the `k`-th are dropped, so this is also
/// the "cast to width `k`" a sum type's discriminant undergoes.
pub open spec fn spec_be(k: nat, n: nat) -> Seq<u8>
    decreases k,
{
    if k == 0 {
        Seq::empty()
    } else {
        spec_be((k - 1) as nat, n / 256).push((n % 256) as u8)
    }
}

/// The number a big-endian byte string denotes.
pub open spec fn be_val(s: Seq<u8>) -> nat
    decreases s.len(),
{
    if s.len() == 0 {
        0
    } else {
        be_val(s.drop_last()) * 256 + (s.last() as nat)
    }
}

/// A `k`-byte encoding is `k` bytes long.
pub proof fn lemma_spec_be_len(k: nat, n: nat)
    ensures
        spec_be(k, n).len() == k,
    decreases k,
{
    if k > 0 {
        lemma_spec_be_len((k - 1) as nat, n / 256);
    }
}

/// A byte string of length `k` denotes a number below `pow256(k)`.
pub proof fn lemma_be_val_bound(s: Seq<u8>)
    ensures
        be_val(s) < pow256(s.len()),
    decreases s.len(),
{
    if s.len() > 0 {
        lemma_be_val_bound(s.drop_last());
        assert(be_val(s.drop_last()) <= pow256((s.len() - 1) as nat) - 1);
        assert(s.last() < 256);
    }
}

/// Reading back a `k`-byte encoding yields the encoded number, reduced
/// modulo `pow256(k)`; in particular it yields the number itself whenever
/// the number fits in `k` bytes.
pub proof fn lemma_be_val_spec_be(k: nat, n: nat)
    ensures
        be_val(spec_be(k, n)) == n % pow256(k),
    decreases k,
{
    if k == 0 {
        assert(n % pow256(0) == 0);
    } else {
        let m = pow256((k - 1) as nat) as int;
        let ni = n as int;
        lemma_be_val_spec_be((k - 1) as nat, n / 256);
        lemma_spec_be_len((k - 1) as nat, n / 256);
        let s = spec_be(k, n);
        assert(s.drop_last() =~= spec_be((k - 1) as nat, n / 256));
        assert(m > 0) by {
            lemma_pow256_pos((k - 1) as nat);
        }
        // n = (256 m) ((n/256)/m) + (((n/256) % m) 256 + n % 256), and the
        // trailing summand lies in [0, 256 m), so it is n's remainder.
        let q = (ni / 256) / m;
        let r = ((ni / 256) % m) * 256 + ni % 256;
        assert(be_val(s) == r);
        lemma_fundamental_div_mod(ni, 256);
        lemma_fundamental_div_mod(ni / 256, m);
        assert(0 <= r < 256 * m) by (nonlinear_arith)
            requires
                m > 0,
                0 <= (ni / 256) % m < m,
                0 <= ni % 256 < 256,
                r == ((ni / 256) % m) * 256 + ni % 256;
        assert(ni == q * (256 * m) + r) by (nonlinear_arith)
            requires
                ni == 256 * (ni / 256) + ni % 256,
                ni / 256 == m * q + (ni / 256) % m,
                r == ((ni / 256) % m) * 256 + ni % 256,
                q == (ni / 256) / m;
        lemma_fundamental_div_mod_converse(ni, 256 * m, q, r);
        assert(pow256(k) as int == 256 * m);
    }
}

/// Encoding what a byte string denotes yields the byte string back.
pub proof fn lemma_spec_be_be_val(s: Seq<u8>)
    ensures
        spec_be(s.len(), be_val(s)) == s,
    decreases s.len(),
{
    if s.len() > 0 {
        lemma_spec_be_be_val(s.drop_last());
        let a = be_val(s.drop_last()) as int;
        let b = s.last() as int;
        lemma_fundamental_div_mod_converse(a * 256 + b, 256, a, b);
        assert(be_val(s) / 256 == be_val(s.drop_last()));
        assert(be_val(s) % 256 == s.last());
        assert(spec_be(s.len(), be_val(s)) =~= s);
    } else {
        assert(spec_be(0, be_val(s)) =~= s);
    }
}

/// `pow256` is positive.
pub proof fn lemma_pow256_pos(k: nat)
    ensures
        pow256(k) >= 1,
    decreases k,
{
    if k > 0 {
        lemma_pow256_pos((k - 1) as nat);
    }
}

/// `pow256` grows with the exponent.
pub proof fn lemma_pow256_increases(j: nat, k: nat)
    requires
        j <= k,
    ensures
        pow256(j) <= pow256(k),
    decreases k,
{
    if j < k {
        lemma_pow256_increases(j, (k - 1) as nat);
        lemma_pow256_pos((k - 1) as nat);
    }
}

/// Sixteen bytes hold exactly the `u128` range.
pub proof fn lemma_pow256_16()
    ensures
        pow256(16) == u128::MAX + 1,
{
    assert(pow256(16) == 0x100000000000000000000000000000000) by {
        reveal_with_fuel(pow256, 17);
    }
}

/// Appends the `k`-byte big-endian encoding of `n` to `out`.
pub fn push_be(k: usize, n: u128, out: &mut Vec<u8>)
    ensures
        final(out)@ == old(out)@ + spec_be(k as nat, n as nat),
    decreases k,
{
    if k == 0 {
        assert(out@ =~= old(out)@ + spec_be(0, n as nat));
    } else {
        push_be(k - 1, n / 256, out);
        out.push((n % 256) as u8);
        assert(out@ =~= old(out)@ + spec_be(k as nat, n as nat));
    }
}

/// Reads the number the `k` bytes of `data` starting at `pos` denote,
/// big-endian. Sixteen bytes at most, so the result fits a `u128`.
pub fn read_be(data: &Vec<u8>, pos: usize, k: usize) -> (r: u128)
    requires
        k <= 16,
        pos + k <= data@.len(),
    ensures
        r as nat == be_val(data@.subrange(pos as int, pos + k)),
{
    let dlen = data.len();
    let mut acc: u128 = 0;
    let mut i: usize = 0;
    proof {
        assert(data@.subrange(pos as int, pos as int) =~= Seq::<u8>::empty());
    }
    while i < k
        invariant
            i <= k,
            k <= 16,
            pos + k <= dlen,
            dlen == data@.len(),
            acc as nat == be_val(data@.subrange(pos as int, pos + i)),
            (acc as nat) < pow256(i as nat),
        decreases k - i,
    {
        let b = data[pos + i];
        proof {
            let prefix = data@.subrange(pos as int, pos + i);
            let next = data@.subrange(pos as int, pos + i + 1);
            assert(next.drop_last() =~= prefix);
            assert(next.last() == data@[pos + i]);
            lemma_pow256_increases((i + 1) as nat, 16);
            lemma_pow256_16();
            assert((acc as nat) * 256 + b < pow256((i + 1) as nat)) by (nonlinear_arith)
                requires
                    (acc as nat) < pow256(i as nat),
                    b < 256,
                    pow256((i + 1) as nat) == 256 * pow256(i as nat);
        }
        acc = acc * 256 + (b as u128);
        i = i + 1;
    }
    acc
}

} // verus!
