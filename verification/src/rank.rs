//! The register index and the rank that a 64-bit hash gives.

use crate::packed::lemma_high_part_bound;
use vstd::arithmetic::div_mod::{
    lemma_fundamental_div_mod, lemma_fundamental_div_mod_converse, lemma_mod_bound,
    lemma_mod_multiples_vanish, lemma_small_mod,
};
use vstd::arithmetic::power2::{
    lemma2_to64, lemma2_to64_rest, lemma_pow2_adds, lemma_pow2_pos, lemma_pow2_strictly_increases,
    lemma_pow2_unfold, pow2,
};
use vstd::bits::{
    lemma_u64_low_bits_mask_is_mod, lemma_u64_pow2_no_overflow, lemma_u64_shl_is_mul,
    lemma_u64_shr_is_div, low_bits_mask,
};
use vstd::prelude::*;
use vstd::std_specs::bits::{axiom_u64_trailing_zeros, u64_trailing_zeros};

verus! {

/// How many zero bits `w` has below its lowest one bit, counting no more
/// than `cap` of them.
pub open spec fn trailing_zeros_capped(w: nat, cap: nat) -> nat
    decreases cap,
{
    if cap == 0 || w % 2 == 1 {
        0
    } else {
        1 + trailing_zeros_capped(w / 2, (cap - 1) as nat)
    }
}

/// The register that a hash selects among `2^log2m` registers: its low
/// `log2m` bits.
pub open spec fn index_of_hash(hash: u64, log2m: nat) -> nat {
    (hash as nat) % pow2(log2m)
}

/// The rank of a hash: one more than the number of zero bits below the
/// lowest one bit of the `64 - log2m` bits left above the register index.
/// A sentinel bit just above them stops the count, so that the rank is at
/// most `64 - log2m + 1`.
pub open spec fn rank_of_hash(hash: u64, log2m: nat) -> nat {
    1 + trailing_zeros_capped((hash as nat) / pow2(log2m), (64 - log2m) as nat)
}

/// The capped count is `t` when the `t` low bits of `w` are zero and either
/// bit `t` is one or `t` is the cap.
pub proof fn lemma_trailing_zeros_capped_is(w: nat, cap: nat, t: nat)
    requires
        t <= cap,
        w % pow2(t) == 0,
        t == cap || (w / pow2(t)) % 2 == 1,
    ensures
        trailing_zeros_capped(w, cap) == t,
    decreases t,
{
    lemma2_to64();
    if t == 0 {
        assert(w / pow2(0) == w);
    } else {
        let s = (t - 1) as nat;
        lemma_pow2_unfold(t);
        lemma_pow2_pos(s);
        lemma_pow2_adds(1, s);
        // w = 2^t * k, hence w is even and w / 2 = 2^s * k
        let k = (w as int) / (pow2(t) as int);
        lemma_fundamental_div_mod(w as int, pow2(t) as int);
        assert(pow2(t) * k == (pow2(s) * k) * 2) by (nonlinear_arith)
            requires
                pow2(t) == 2 * pow2(s),
        ;
        lemma_fundamental_div_mod_converse(w as int, 2, pow2(s) * k, 0);
        assert(pow2(s) * k == k * pow2(s)) by (nonlinear_arith);
        lemma_fundamental_div_mod_converse((w / 2) as int, pow2(s) as int, k, 0);
        lemma_trailing_zeros_capped_is(w / 2, (cap - 1) as nat, s);
    }
}

/// The register index of a hash.
pub fn hash_index(hash: u64, log2m: u32) -> (j: u64)
    requires
        log2m < 64,
    ensures
        j == index_of_hash(hash, log2m as nat),
        j < pow2(log2m as nat),
{
    proof {
        lemma_pow2_pos(log2m as nat);
        lemma_u64_pow2_no_overflow(log2m as nat);
        lemma_u64_shl_is_mul(1, log2m as u64);
        lemma_u64_low_bits_mask_is_mod(hash, log2m as nat);
        lemma_mod_bound(hash as int, pow2(log2m as nat) as int);
        assert((1u64 << log2m) - 1 == low_bits_mask(log2m as nat));
    }
    hash & ((1u64 << log2m) - 1)
}

/// The rank of a hash.
pub fn hash_rank(hash: u64, log2m: u32) -> (rank: u64)
    requires
        1 <= log2m < 64,
    ensures
        rank == rank_of_hash(hash, log2m as nat),
        1 <= rank <= 64 - log2m + 1,
{
    let q: u32 = 64 - log2m;
    let w: u64 = hash >> log2m;
    let sentinel: u64 = 1u64 << q;
    let x: u64 = w | sentinel;
    let t: u32 = x.trailing_zeros();
    proof {
        let pq = pow2(q as nat);
        lemma2_to64();
        lemma2_to64_rest();
        lemma_pow2_pos(q as nat);
        lemma_pow2_adds(log2m as nat, q as nat);
        lemma_u64_pow2_no_overflow(q as nat);
        lemma_u64_shr_is_div(hash, log2m as u64);
        lemma_u64_shl_is_mul(1, q as u64);
        lemma_high_part_bound(hash as nat, log2m as nat, q as nat);
        assert(w < pq);
        assert(sentinel == pq);
        // the sentinel lies above every bit of w
        lemma_u64_shr_is_div(w, q as u64);
        vstd::arithmetic::div_mod::lemma_basic_div(w as int, pq as int);
        let qq = q as u64;
        assert(w >> qq == 0);
        assert(w | (1u64 << qq) == w + (1u64 << qq)) by (bit_vector)
            requires
                w >> qq == 0,
                qq < 64,
        ;
        assert(x == w + pq);
        // what the count of trailing zeros says of x
        axiom_u64_trailing_zeros(x);
        assert(t == u64_trailing_zeros(x));
        assert(t < 64);
        let tt = t as u64;
        let pt = pow2(t as nat);
        lemma_pow2_pos(t as nat);
        lemma_u64_pow2_no_overflow(t as nat);
        lemma_u64_shl_is_mul(1, tt);
        let above = (64 - tt) as u64;
        let mask = ((1u64 << tt) - 1) as u64;
        assert(x << above == 0);
        assert(x & mask == 0) by (bit_vector)
            requires
                tt < 64,
                above == 64 - tt,
                mask == (1u64 << tt) - 1,
                x << above == 0,
        ;
        assert((x >> tt) & 1 == (x >> tt) % 2) by (bit_vector);
        lemma_u64_low_bits_mask_is_mod(x, t as nat);
        lemma_u64_shr_is_div(x, tt);
        assert(mask == low_bits_mask(t as nat));
        assert((x as nat) % pt == 0);
        assert(((x as nat) / pt) % 2 == 1);
        // the sentinel stops the count
        if t > q {
            lemma_pow2_strictly_increases(q as nat, t as nat);
            lemma_pow2_unfold((q + 1) as nat);
            if q + 1 < t {
                lemma_pow2_strictly_increases((q + 1) as nat, t as nat);
            }
            lemma_small_mod(x as nat, pt);
        }
        assert(t <= q);
        let d = (q - t) as nat;
        lemma_pow2_adds(t as nat, d);
        lemma_pow2_pos(d);
        lemma_mod_multiples_vanish(pow2(d) as int, w as int, pt as int);
        assert((w as nat) % pt == 0);
        if t < q {
            let k = (w as int) / (pt as int);
            lemma_fundamental_div_mod(w as int, pt as int);
            assert(x == (k + pow2(d)) * pt + 0) by (nonlinear_arith)
                requires
                    w == pt * k,
                    x == w + pt * pow2(d),
            ;
            lemma_fundamental_div_mod_converse(x as int, pt as int, k + pow2(d), 0);
            lemma_pow2_unfold(d);
        }
        lemma_trailing_zeros_capped_is(w as nat, q as nat, t as nat);
    }
    t as u64 + 1
}

} // verus!
