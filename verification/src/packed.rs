//! A slice of words read as one number, and the bit fields of that number.

use crate::bit_field::{
    field_of, lemma_field_above, lemma_field_below, lemma_field_bound, lemma_field_compose,
    lemma_field_decompose, lemma_field_of_small, lemma_field_split, lemma_with_field,
    lemma_with_field_keeps_upper, with_field,
};
use crate::word::Word;
use vstd::arithmetic::div_mod::{
    lemma_fundamental_div_mod, lemma_fundamental_div_mod_converse, lemma_mod_bound, lemma_small_mod,
};
use vstd::arithmetic::mul::{lemma_mul_is_associative, lemma_mul_is_distributive_add};
use vstd::arithmetic::power2::{lemma2_to64, lemma2_to64_rest, lemma_pow2_adds, lemma_pow2_pos, pow2};
use vstd::bits::{
    lemma_u64_low_bits_mask_is_mod, lemma_u64_pow2_no_overflow, lemma_u64_shl_is_mul,
    lemma_u64_shr_is_div, low_bits_mask,
};
use vstd::prelude::*;

verus! {

/// The number that a sequence of words spells, the first word being the
/// least significant.
pub open spec fn packed_value<W: Word>(words: Seq<W>) -> nat
    decreases words.len(),
{
    if words.len() == 0 {
        0
    } else {
        packed_value(words.drop_last()) + words.last().value() * pow2(
            ((words.len() - 1) * W::bits()) as nat,
        )
    }
}

/// The `width` bits that start at bit `offset` of the words.
pub open spec fn packed_field<W: Word>(words: Seq<W>, offset: nat, width: nat) -> nat {
    field_of(packed_value(words), offset, width)
}

/// A number is below `2^(a + c)` exactly when its part above bit `a` is below `2^c`.
pub proof fn lemma_high_part_bound(n: nat, a: nat, c: nat)
    ensures
        n < pow2(a + c) <==> n / pow2(a) < pow2(c),
{
    let pa = pow2(a) as int;
    let pc = pow2(c) as int;
    let q = (n as int) / pa;
    let r = (n as int) % pa;
    lemma_pow2_pos(a);
    lemma_pow2_pos(c);
    lemma_pow2_adds(a, c);
    lemma_fundamental_div_mod(n as int, pa);
    lemma_mod_bound(n as int, pa);
    if q < pc {
        assert(pa * q + pa <= pa * pc) by (nonlinear_arith)
            requires
                q < pc,
                0 < pa,
        ;
    } else {
        assert(pa * pc <= pa * q) by (nonlinear_arith)
            requires
                pc <= q,
                0 < pa,
        ;
    }
}

/// Replacing a field of a number below `2^limit`, the field lying below bit
/// `limit`, gives a number below `2^limit`.
pub proof fn lemma_with_field_bound(n: nat, offset: nat, width: nat, v: nat, limit: nat)
    requires
        n < pow2(limit),
        offset + width <= limit,
        v < pow2(width),
    ensures
        with_field(n, offset, width, v) < pow2(limit),
{
    let rest = (limit - offset - width) as nat;
    lemma_with_field(n, offset, width, v);
    lemma_high_part_bound(n, offset + width, rest);
    lemma_high_part_bound(with_field(n, offset, width, v), offset + width, rest);
}

/// Replacing the lower part of a field and then its upper part replaces the field.
pub proof fn lemma_with_field_split(n: nat, offset: nat, low: nat, high: nat, v: nat)
    requires
        v < pow2(low + high),
    ensures
        with_field(
            with_field(n, offset, low, field_of(v, 0, low)),
            offset + low,
            high,
            field_of(v, low, high),
        ) == with_field(n, offset, low + high, v),
{
    let v0 = field_of(v, 0, low);
    let v1 = field_of(v, low, high);
    let f0 = field_of(n, offset, low);
    let f1 = field_of(n, offset + low, high);
    let n1 = with_field(n, offset, low, v0);
    let po = pow2(offset) as int;
    let pl = pow2(low) as int;
    lemma_field_bound(v, 0, low);
    lemma_field_bound(v, low, high);
    lemma_with_field(n, offset, low, v0);
    lemma_with_field_keeps_upper(n, offset, low, v0, offset + low, high);
    lemma_with_field(n1, offset + low, high, v1);
    lemma_with_field(n, offset, low + high, v);
    lemma_field_split(n, offset, low, high);
    lemma_field_split(v, 0, low, high);
    lemma_field_of_small(v, low + high);
    lemma_pow2_adds(offset, low);
    assert((f0 + pl * f1) * po == f0 * po + f1 * (po * pl)) by (nonlinear_arith);
    assert((v0 + pl * v1) * po == v0 * po + v1 * (po * pl)) by (nonlinear_arith);
}

/// The words spell a number below `2^(len * bits)`.
pub proof fn lemma_packed_bound<W: Word>(words: Seq<W>)
    ensures
        packed_value(words) < pow2(words.len() * W::bits()),
    decreases words.len(),
{
    if words.len() == 0 {
        lemma_pow2_pos(0);
    } else {
        let rest = words.drop_last();
        let shift = ((words.len() - 1) * W::bits()) as nat;
        lemma_packed_bound(rest);
        words.last().lemma_value();
        lemma_pow2_adds(shift, W::bits());
        assert(shift + W::bits() == words.len() * W::bits()) by (nonlinear_arith)
            requires
                shift == (words.len() - 1) * W::bits(),
        ;
        let w = words.last().value() as int;
        let ps = pow2(shift) as int;
        let pb = pow2(W::bits()) as int;
        assert(w * ps + ps <= ps * pb) by (nonlinear_arith)
            requires
                w < pb,
                0 <= ps,
        ;
    }
}

/// Word `i` is the field of `bits` bits at bit `i * bits`.
pub proof fn lemma_packed_word<W: Word>(words: Seq<W>, i: int)
    requires
        0 <= i < words.len(),
    ensures
        packed_field(words, (i * W::bits()) as nat, W::bits()) == words[i].value(),
    decreases words.len(),
{
    let rest = words.drop_last();
    let b = W::bits();
    let shift = ((words.len() - 1) * b) as nat;
    let w = words.last().value();
    lemma_packed_bound(rest);
    words.last().lemma_value();
    assert(pow2(shift) * w == w * pow2(shift)) by (nonlinear_arith);
    assert(pow2(shift + b) * 0 == 0);
    lemma_field_compose(packed_value(rest), w, 0, shift, b);
    if i < words.len() - 1 {
        lemma_packed_word(rest, i);
        assert(i * b + b <= shift) by (nonlinear_arith)
            requires
                i < words.len() - 1,
                shift == (words.len() - 1) * b,
        ;
        assert(0 <= i * b) by (nonlinear_arith)
            requires
                0 <= i,
        ;
        lemma_field_below(packed_value(words), shift, (i * b) as nat, b);
    }
}

/// Replacing word `i` replaces the field that the word occupies.
pub proof fn lemma_packed_update<W: Word>(words: Seq<W>, i: int, w: W)
    requires
        0 <= i < words.len(),
    ensures
        packed_value(words.update(i, w)) == with_field(
            packed_value(words),
            (i * W::bits()) as nat,
            W::bits(),
            w.value(),
        ),
    decreases words.len(),
{
    let b = W::bits();
    let rest = words.drop_last();
    let shift = ((words.len() - 1) * b) as nat;
    let new_words = words.update(i, w);
    w.lemma_value();
    lemma_packed_word(words, i);
    assert(0 <= i * b) by (nonlinear_arith)
        requires
            0 <= i,
    ;
    lemma_with_field(packed_value(words), (i * b) as nat, b, w.value());
    if i == words.len() - 1 {
        assert(new_words.drop_last() =~= rest);
    } else {
        assert(new_words.drop_last() =~= rest.update(i, w));
        lemma_packed_update(rest, i, w);
        lemma_packed_word(rest, i);
        lemma_with_field(packed_value(rest), (i * b) as nat, b, w.value());
    }
}

/// A field that lies inside word `i` is a field of that word.
pub proof fn lemma_field_in_word<W: Word>(words: Seq<W>, i: int, shift: nat, width: nat)
    requires
        0 <= i < words.len(),
        shift + width <= W::bits(),
    ensures
        packed_field(words, (i * W::bits() + shift) as nat, width) == field_of(
            words[i].value(),
            shift,
            width,
        ),
{
    let b = W::bits();
    let p = packed_value(words);
    assert(0 <= i * b) by (nonlinear_arith)
        requires
            0 <= i,
    ;
    let base = (i * b) as nat;
    let x = p / pow2(base);
    lemma_packed_word(words, i);
    lemma_field_above(p, base, base + shift, width);
    lemma_field_below(x, b, shift, width);
}

/// Replacing a field inside word `i` is replacing that field of the word.
pub proof fn lemma_with_field_in_word<W: Word>(
    words: Seq<W>,
    i: int,
    shift: nat,
    width: nat,
    v: nat,
)
    requires
        0 <= i < words.len(),
        shift + width <= W::bits(),
        v < pow2(width),
    ensures
        with_field(words[i].value(), shift, width, v) < pow2(W::bits()),
        packed_value(
            words.update(i, W::from_value(with_field(words[i].value(), shift, width, v))),
        ) == with_field(packed_value(words), (i * W::bits() + shift) as nat, width, v),
{
    let b = W::bits();
    let p = packed_value(words);
    let w = words[i].value();
    let new_w = with_field(w, shift, width, v);
    assert(0 <= i * b) by (nonlinear_arith)
        requires
            0 <= i,
    ;
    let base = (i * b) as nat;
    words[i].lemma_value();
    lemma_with_field_bound(w, shift, width, v, b);
    W::lemma_from_value(new_w);
    lemma_packed_update(words, i, W::from_value(new_w));
    lemma_packed_word(words, i);
    lemma_field_in_word(words, i, shift, width);
    lemma_with_field(w, shift, width, v);
    lemma_with_field(p, base, b, new_w);
    lemma_with_field(p, base + shift, width, v);
    lemma_pow2_adds(base, shift);
    let f = field_of(w, shift, width) as int;
    let pb = pow2(base) as int;
    let ps = pow2(shift) as int;
    assert((w - f * ps + v * ps) * pb == w * pb - f * (pb * ps) + v * (pb * ps))
        by (nonlinear_arith);
}

/// Two sequences of as many words that spell the same number are equal.
pub proof fn lemma_packed_injective<W: Word>(a: Seq<W>, b: Seq<W>)
    requires
        a.len() == b.len(),
        packed_value(a) == packed_value(b),
    ensures
        a == b,
{
    assert forall|i: int| 0 <= i < a.len() implies a[i] == b[i] by {
        lemma_packed_word(a, i);
        lemma_packed_word(b, i);
        a[i].lemma_value();
        b[i].lemma_value();
    }
    assert(a =~= b);
}

/// Where bit `offset` lies: in which word, and at which bit of it.
pub proof fn lemma_locate(offset: nat, bits: nat, len: nat)
    requires
        0 < bits,
        offset < len * bits,
    ensures
        offset / bits < len,
        offset % bits < bits,
        offset == (offset / bits) * bits + offset % bits,
        (offset / bits + 1) * bits == (offset / bits) * bits + bits,
        len * bits - (offset / bits) * bits >= bits,
{
    let q = (offset / bits) as int;
    lemma_fundamental_div_mod(offset as int, bits as int);
    lemma_mod_bound(offset as int, bits as int);
    assert(bits * q == q * bits) by (nonlinear_arith);
    assert((q + 1) * bits == q * bits + bits) by (nonlinear_arith);
    if q >= len {
        assert(q * bits >= len * bits) by (nonlinear_arith)
            requires
                q >= len,
                0 < bits,
        ;
    }
    assert((len - q) * bits >= bits) by (nonlinear_arith)
        requires
            len - q >= 1,
            0 < bits,
    ;
    assert((len - q) * bits == len * bits - q * bits) by (nonlinear_arith);
}

/// The `width` bits of `w` that start at bit `shift`.
pub fn extract_bits(w: u64, shift: u32, width: u32) -> (f: u64)
    requires
        shift < 64,
        shift + width <= 64,
    ensures
        f == field_of(w as nat, shift as nat, width as nat),
        f < pow2(width as nat),
{
    let x = w >> shift;
    proof {
        lemma_u64_shr_is_div(w, shift as u64);
        lemma_field_bound(w as nat, shift as nat, width as nat);
    }
    if width < 64 {
        proof {
            lemma2_to64();
            lemma2_to64_rest();
            lemma_pow2_pos(width as nat);
            lemma_u64_pow2_no_overflow(width as nat);
            lemma_u64_shl_is_mul(1, width as u64);
            lemma_u64_low_bits_mask_is_mod(x, width as nat);
            assert((1u64 << width) - 1 == low_bits_mask(width as nat));
        }
        x & ((1u64 << width) - 1)
    } else {
        proof {
            lemma2_to64();
            lemma2_to64_rest();
            lemma_small_mod(w as nat, pow2(64));
            assert(x == (w as nat) / pow2(0));
        }
        x
    }
}

/// `w` with its `width` bits at bit `shift` replaced by `v`.
pub fn replace_bits(w: u64, shift: u32, width: u32, v: u64) -> (r: u64)
    requires
        shift < 64,
        shift + width <= 64,
        v < pow2(width as nat),
    ensures
        r == with_field(w as nat, shift as nat, width as nat, v as nat),
{
    let f = extract_bits(w, shift, width);
    proof {
        let rest = (64 - shift - width) as nat;
        lemma2_to64_rest();
        lemma_pow2_pos(shift as nat);
        lemma_pow2_adds(shift as nat, width as nat);
        lemma_pow2_adds((shift + width) as nat, rest);
        lemma_field_decompose(w as nat, shift as nat, width as nat);
        lemma_with_field(w as nat, shift as nat, width as nat, v as nat);
        lemma_with_field_bound(w as nat, shift as nat, width as nat, v as nat, 64);
        let ps = pow2(shift as nat) as int;
        let pw = pow2(width as nat) as int;
        assert(f * ps < pw * ps && v * ps < pw * ps) by (nonlinear_arith)
            requires
                f < pw,
                v < pw,
                0 < ps,
        ;
        assert(pw * ps == ps * pw) by (nonlinear_arith);
        assert(pow2((shift + width) as nat) <= pow2(64)) by {
            lemma_high_part_bound(pow2((shift + width) as nat), (shift + width) as nat, rest);
            if pow2((shift + width) as nat) > pow2(64) {
                vstd::arithmetic::power2::lemma_pow2_strictly_increases(
                    64,
                    (shift + width) as nat,
                );
            }
        }
        lemma_u64_shl_is_mul(f, shift as u64);
        lemma_u64_shl_is_mul(v, shift as u64);
        assert(pow2(shift as nat) * f == f * ps) by (nonlinear_arith)
            requires
                ps == pow2(shift as nat),
        ;
        assert(0 <= pow2((shift + width) as nat) * ((w as nat) / pow2((shift + width) as nat)))
            by (nonlinear_arith);
    }
    w - (f << shift) + (v << shift)
}

/// Reads the `width` bits that start at bit `offset` of the words.
pub fn read_field<W: Word>(words: &[W], offset: u64, width: u32) -> (v: u64)
    requires
        1 <= width <= W::bits(),
        offset + width <= words@.len() * W::bits(),
    ensures
        v == packed_field(words@, offset as nat, width as nat),
        v < pow2(width as nat),
{
    let bits = W::word_bits();
    proof {
        W::lemma_bits();
        lemma_locate(offset as nat, bits as nat, words@.len());
        lemma_field_bound(packed_value(words@), offset as nat, width as nat);
    }
    let i = (offset / (bits as u64)) as usize;
    let shift = (offset % (bits as u64)) as u32;
    let w0 = words[i].to_u64();
    if shift + width <= bits {
        proof {
            lemma_field_in_word(words@, i as int, shift as nat, width as nat);
        }
        extract_bits(w0, shift, width)
    } else {
        let low = bits - shift;
        let high = width - low;
        proof {
            lemma_locate((offset + low) as nat, bits as nat, words@.len());
            assert((offset + low) as nat / (bits as nat) == i + 1) by {
                lemma_fundamental_div_mod_converse(
                    (offset + low) as int,
                    bits as int,
                    (i + 1) as int,
                    0,
                );
            }
            lemma_field_split(packed_value(words@), offset as nat, low as nat, high as nat);
            lemma_field_in_word(words@, i as int, shift as nat, low as nat);
            lemma_field_in_word(words@, i as int + 1, 0, high as nat);
            lemma_pow2_adds(low as nat, high as nat);
        }
        let w1 = words[i + 1].to_u64();
        let lo = extract_bits(w0, shift, low);
        let hi = extract_bits(w1, 0, high);
        proof {
            let pl = pow2(low as nat) as int;
            let ph = pow2(high as nat) as int;
            lemma2_to64_rest();
            lemma_pow2_pos(low as nat);
            assert(hi * pl + pl <= pl * ph) by (nonlinear_arith)
                requires
                    hi < ph,
                    0 < pl,
            ;
            assert(pow2(width as nat) <= pow2(64)) by {
                if width < 64 {
                    vstd::arithmetic::power2::lemma_pow2_strictly_increases(width as nat, 64);
                }
            }
            lemma_u64_shl_is_mul(hi, low as u64);
            assert(pow2(low as nat) * hi == hi * pl) by (nonlinear_arith)
                requires
                    pl == pow2(low as nat),
            ;
        }
        lo + (hi << low)
    }
}

/// Writes `v` into the `width` bits that start at bit `offset` of the words.
/// No other bit changes.
pub fn write_field<W: Word>(words: &mut [W], offset: u64, width: u32, v: u64)
    requires
        1 <= width <= W::bits(),
        offset + width <= old(words)@.len() * W::bits(),
        v < pow2(width as nat),
    ensures
        final(words)@.len() == old(words)@.len(),
        packed_value(final(words)@) == with_field(
            packed_value(old(words)@),
            offset as nat,
            width as nat,
            v as nat,
        ),
{
    let bits = W::word_bits();
    proof {
        W::lemma_bits();
        lemma_locate(offset as nat, bits as nat, words@.len());
    }
    let i = (offset / (bits as u64)) as usize;
    let shift = (offset % (bits as u64)) as u32;
    let w0 = words[i].to_u64();
    if shift + width <= bits {
        proof {
            lemma_with_field_in_word(words@, i as int, shift as nat, width as nat, v as nat);
        }
        words[i] = W::from_u64(replace_bits(w0, shift, width, v));
    } else {
        let low = bits - shift;
        let high = width - low;
        let w1 = words[i + 1].to_u64();
        let v0 = extract_bits(v, 0, low);
        let v1 = extract_bits(v, low, high);
        proof {
            lemma_locate((offset + low) as nat, bits as nat, words@.len());
            assert((offset + low) as nat / (bits as nat) == i + 1) by {
                lemma_fundamental_div_mod_converse(
                    (offset + low) as int,
                    bits as int,
                    (i + 1) as int,
                    0,
                );
            }
            lemma_with_field_in_word(words@, i as int, shift as nat, low as nat, v0 as nat);
        }
        words[i] = W::from_u64(replace_bits(w0, shift, low, v0));
        proof {
            lemma_with_field_in_word(words@, i as int + 1, 0, high as nat, v1 as nat);
            lemma_with_field_split(
                packed_value(old(words)@),
                offset as nat,
                low as nat,
                high as nat,
                v as nat,
            );
        }
        words[i + 1] = W::from_u64(replace_bits(w1, 0, high, v1));
    }
}

} // verus!
