//! Bit fields inside a natural number.
//!
//! A backend is read as one number, little end first; a register is a run of
//! consecutive bits of that number. This module holds what is true of such
//! runs in any natural number, without reference to words.

use vstd::arithmetic::div_mod::{
    lemma_breakdown, lemma_div_denominator, lemma_div_pos_is_pos, lemma_fundamental_div_mod,
    lemma_fundamental_div_mod_converse, lemma_mod_bound, lemma_small_mod,
};
use vstd::arithmetic::mul::{lemma_mul_is_associative, lemma_mul_is_distributive_add};
use vstd::arithmetic::power2::{lemma_pow2_adds, lemma_pow2_pos, pow2};
use vstd::prelude::*;

verus! {

/// The `width` bits of `n` that start at bit `offset`, as a number.
pub open spec fn field_of(n: nat, offset: nat, width: nat) -> nat {
    (n / pow2(offset)) % pow2(width)
}

/// `n` with its `width` bits at `offset` replaced by `v`.
pub open spec fn with_field(n: nat, offset: nat, width: nat, v: nat) -> nat {
    (n - field_of(n, offset, width) * pow2(offset) + v * pow2(offset)) as nat
}

/// A field of `width` bits is below `2^width`.
pub proof fn lemma_field_bound(n: nat, offset: nat, width: nat)
    ensures
        field_of(n, offset, width) < pow2(width),
{
    lemma_pow2_pos(width);
    lemma_mod_bound((n / pow2(offset)) as int, pow2(width) as int);
}

/// Shifting a number right by `a` and then by `b` bits is shifting it by `a + b`.
pub proof fn lemma_shift_twice(n: nat, a: nat, b: nat)
    ensures
        (n / pow2(a)) / pow2(b) == n / pow2(a + b),
{
    lemma_pow2_pos(a);
    lemma_pow2_pos(b);
    lemma_pow2_adds(a, b);
    lemma_div_denominator(n as int, pow2(a) as int, pow2(b) as int);
}

/// A field is the sum of its lower part and its upper part.
pub proof fn lemma_field_split(n: nat, offset: nat, low: nat, high: nat)
    ensures
        field_of(n, offset, low + high) == field_of(n, offset, low) + pow2(low) * field_of(
            n,
            offset + low,
            high,
        ),
{
    let x = n / pow2(offset);
    lemma_pow2_pos(offset);
    lemma_pow2_pos(low);
    lemma_pow2_pos(high);
    lemma_pow2_adds(low, high);
    lemma_div_pos_is_pos(n as int, pow2(offset) as int);
    lemma_breakdown(x as int, pow2(low) as int, pow2(high) as int);
    lemma_shift_twice(n, offset, low);
}

/// A number is made of what lies below a field, the field, and what lies above it.
pub proof fn lemma_field_decompose(n: nat, offset: nat, width: nat)
    ensures
        n == n % pow2(offset) + pow2(offset) * field_of(n, offset, width) + pow2(offset + width)
            * (n / pow2(offset + width)),
{
    let a = pow2(offset) as int;
    let k = pow2(width) as int;
    let x = (n / pow2(offset)) as int;
    lemma_pow2_pos(offset);
    lemma_pow2_pos(width);
    lemma_pow2_adds(offset, width);
    lemma_fundamental_div_mod(n as int, a);
    lemma_fundamental_div_mod(x, k);
    lemma_shift_twice(n, offset, width);
    let h = (n / pow2(offset + width)) as int;
    assert(x == k * h + x % k);
    assert(a * x == a * (k * h) + a * (x % k)) by {
        lemma_mul_is_distributive_add(a, k * h, x % k);
    }
    assert(a * (k * h) == (a * k) * h) by {
        lemma_mul_is_associative(a, k, h);
    }
}

/// The three parts of a number determine it: from a low part, a field and a
/// high part that fit, each is read back.
pub proof fn lemma_field_compose(low: nat, f: nat, high: nat, offset: nat, width: nat)
    requires
        low < pow2(offset),
        f < pow2(width),
    ensures
        ({
            let n = low + pow2(offset) * f + pow2(offset + width) * high;
            &&& n % pow2(offset) == low
            &&& field_of(n, offset, width) == f
            &&& n / pow2(offset + width) == high
        }),
{
    let a = pow2(offset) as int;
    let k = pow2(width) as int;
    let n = (low + pow2(offset) * f + pow2(offset + width) * high) as int;
    let x = (f + k * high) as int;
    lemma_pow2_pos(offset);
    lemma_pow2_pos(width);
    lemma_pow2_adds(offset, width);
    assert(a * x == a * f + a * (k * high)) by {
        lemma_mul_is_distributive_add(a, f as int, k * high);
    }
    assert(a * (k * high) == (a * k) * high) by {
        lemma_mul_is_associative(a, k, high as int);
    }
    assert(n == x * a + low) by {
        assert(a * x == x * a) by (nonlinear_arith);
    }
    lemma_fundamental_div_mod_converse(n, a, x, low as int);
    assert(x == (high as int) * k + f) by {
        assert(k * high == (high as int) * k) by (nonlinear_arith);
    }
    lemma_fundamental_div_mod_converse(x, k, high as int, f as int);
    lemma_shift_twice(n as nat, offset, width);
}

/// A field depends only on the bits below its upper end.
pub proof fn lemma_field_below(n: nat, limit: nat, offset: nat, width: nat)
    requires
        offset + width <= limit,
    ensures
        field_of(n % pow2(limit), offset, width) == field_of(n, offset, width),
{
    let rest = (limit - offset - width) as nat;
    let low = n % pow2(offset);
    let f = field_of(n, offset, width);
    let h = n / pow2(offset + width);
    let ow = pow2(offset + width) as int;
    let r = pow2(rest) as int;
    lemma_pow2_pos(offset);
    lemma_pow2_pos(offset + width);
    lemma_pow2_pos(rest);
    lemma_pow2_pos(limit);
    lemma_pow2_adds(offset + width, rest);
    lemma_field_decompose(n, offset, width);
    lemma_field_bound(n, offset, width);
    lemma_mod_bound(n as int, pow2(offset) as int);
    // n % 2^limit = low + 2^offset * f + 2^(offset + width) * (h % 2^rest)
    lemma_fundamental_div_mod(h as int, r);
    lemma_shift_twice(n, offset + width, rest);
    let hq = (h as int) / r;
    let hr = (h as int) % r;
    lemma_mod_bound(h as int, r);
    assert(ow * (h as int) == ow * (r * hq) + ow * hr) by {
        lemma_mul_is_distributive_add(ow, r * hq, hr);
    }
    assert(ow * (r * hq) == (ow * r) * hq) by {
        lemma_mul_is_associative(ow, r, hq);
    }
    let m = (low + pow2(offset) * f + pow2(offset + width) * (hr as nat)) as int;
    assert(n == hq * (ow * r) + m) by {
        assert((ow * r) * hq == hq * (ow * r)) by (nonlinear_arith);
    }
    assert(m < ow * r) by {
        lemma_field_compose(low, f, hr as nat, offset, width);
        // m / ow == hr < r, hence m < ow * r
        lemma_fundamental_div_mod(m, ow);
        lemma_mod_bound(m, ow);
        assert(ow * (m / ow) + ow <= ow * r) by (nonlinear_arith)
            requires
                m / ow < r,
                0 < ow,
        ;
    }
    lemma_fundamental_div_mod_converse(n as int, ow * r, hq, m);
    lemma_field_compose(low, f, hr as nat, offset, width);
}

/// A field depends only on the bits at and above its lower end.
pub proof fn lemma_field_above(n: nat, limit: nat, offset: nat, width: nat)
    requires
        limit <= offset,
    ensures
        field_of(n / pow2(limit), (offset - limit) as nat, width) == field_of(n, offset, width),
{
    lemma_shift_twice(n, limit, (offset - limit) as nat);
}

/// Replacing a field changes that field and nothing else: what lies below
/// it and what lies above it stay as they were.
pub proof fn lemma_with_field(n: nat, offset: nat, width: nat, v: nat)
    requires
        v < pow2(width),
    ensures
        with_field(n, offset, width, v) % pow2(offset) == n % pow2(offset),
        field_of(with_field(n, offset, width, v), offset, width) == v,
        with_field(n, offset, width, v) / pow2(offset + width) == n / pow2(offset + width),
        with_field(n, offset, width, v) == n - field_of(n, offset, width) * pow2(offset) + v * pow2(
            offset,
        ),
{
    let low = n % pow2(offset);
    let f = field_of(n, offset, width);
    let h = n / pow2(offset + width);
    lemma_pow2_pos(offset);
    lemma_field_decompose(n, offset, width);
    lemma_mod_bound(n as int, pow2(offset) as int);
    lemma_field_compose(low, v, h, offset, width);
    assert(pow2(offset) * f == f * pow2(offset)) by (nonlinear_arith);
    assert(pow2(offset) * v == v * pow2(offset)) by (nonlinear_arith);
    assert(0 <= pow2(offset + width) * h) by (nonlinear_arith);
    assert(0 <= v * pow2(offset)) by (nonlinear_arith);
}

/// Replacing a field leaves every field that ends at or below it unchanged.
pub proof fn lemma_with_field_keeps_lower(
    n: nat,
    offset: nat,
    width: nat,
    v: nat,
    other: nat,
    other_width: nat,
)
    requires
        v < pow2(width),
        other + other_width <= offset,
    ensures
        field_of(with_field(n, offset, width, v), other, other_width) == field_of(
            n,
            other,
            other_width,
        ),
{
    lemma_with_field(n, offset, width, v);
    lemma_field_below(n, offset, other, other_width);
    lemma_field_below(with_field(n, offset, width, v), offset, other, other_width);
}

/// Replacing a field leaves every field that starts at or above its end unchanged.
pub proof fn lemma_with_field_keeps_upper(
    n: nat,
    offset: nat,
    width: nat,
    v: nat,
    other: nat,
    other_width: nat,
)
    requires
        v < pow2(width),
        offset + width <= other,
    ensures
        field_of(with_field(n, offset, width, v), other, other_width) == field_of(
            n,
            other,
            other_width,
        ),
{
    lemma_with_field(n, offset, width, v);
    lemma_field_above(n, offset + width, other, other_width);
    lemma_field_above(with_field(n, offset, width, v), offset + width, other, other_width);
}

/// A number below `2^width` is its own lowest `width` bits.
pub proof fn lemma_field_of_small(n: nat, width: nat)
    requires
        n < pow2(width),
    ensures
        field_of(n, 0, width) == n,
{
    assert(pow2(0) == 1) by {
        vstd::arithmetic::power2::lemma2_to64();
    }
    lemma_small_mod(n, pow2(width));
}

} // verus!
