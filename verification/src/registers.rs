//! Registers: equal-width bit fields packed from bit 0 of a backend on.

use crate::bit_field::{
    field_of, lemma_with_field, lemma_with_field_keeps_lower, lemma_with_field_keeps_upper,
    with_field,
};
use crate::packed::{lemma_packed_injective, packed_value};
use crate::word::Word;
use vstd::arithmetic::div_mod::{
    lemma_breakdown, lemma_fundamental_div_mod, lemma_small_mod,
};
use vstd::arithmetic::power2::{lemma_pow2_adds, lemma_pow2_pos, pow2};
use vstd::prelude::*;

verus! {

/// Field `j` of a number cut into fields of `width` bits.
pub open spec fn nth_field(n: nat, width: nat, j: int) -> nat {
    field_of(n, (j * width) as nat, width)
}

/// The registers that the words hold: `count` fields of `width` bits,
/// register `j` starting at bit `j * width`.
pub open spec fn registers_of<W: Word>(words: Seq<W>, count: nat, width: nat) -> Seq<nat> {
    Seq::new(count, |j: int| nth_field(packed_value(words), width, j))
}

/// What the words hold above the registers.
pub open spec fn padding_of<W: Word>(words: Seq<W>, count: nat, width: nat) -> nat {
    packed_value(words) / pow2(count * width)
}

/// The pointwise maximum of two register sequences.
pub open spec fn max_registers(a: Seq<nat>, b: Seq<nat>) -> Seq<nat> {
    Seq::new(
        a.len(),
        |j: int|
            if a[j] >= b[j] {
                a[j]
            } else {
                b[j]
            },
    )
}

/// Writing `v` into register `j` changes that register and nothing else.
pub proof fn lemma_write_register<W: Word>(
    before: Seq<W>,
    after: Seq<W>,
    count: nat,
    width: nat,
    j: int,
    v: nat,
)
    requires
        0 <= j < count,
        v < pow2(width),
        packed_value(after) == with_field(packed_value(before), (j * width) as nat, width, v),
    ensures
        registers_of(after, count, width) == registers_of(before, count, width).update(j, v),
        padding_of(after, count, width) == padding_of(before, count, width),
{
    let p = packed_value(before);
    let q = packed_value(after);
    assert(0 <= j * width) by (nonlinear_arith)
        requires
            0 <= j,
    ;
    let offset = (j * width) as nat;
    lemma_with_field(p, offset, width, v);
    assert forall|k: int| 0 <= k < count implies #[trigger] registers_of(after, count, width)[k]
        == registers_of(before, count, width).update(j, v)[k] by {
        assert(0 <= k * width) by (nonlinear_arith)
            requires
                0 <= k,
        ;
        if k < j {
            assert(k * width + width <= j * width) by (nonlinear_arith)
                requires
                    k < j,
                    0 <= width,
            ;
            lemma_with_field_keeps_lower(p, offset, width, v, (k * width) as nat, width);
        } else if k > j {
            assert(j * width + width <= k * width) by (nonlinear_arith)
                requires
                    j < k,
                    0 <= width,
            ;
            lemma_with_field_keeps_upper(p, offset, width, v, (k * width) as nat, width);
        }
    }
    assert(registers_of(after, count, width) =~= registers_of(before, count, width).update(j, v));
    // what lies above the registers lies above register j
    assert(j * width + width <= count * width) by (nonlinear_arith)
        requires
            j < count,
            0 <= width,
    ;
    let rest = (count * width - offset - width) as nat;
    crate::bit_field::lemma_shift_twice(p, offset + width, rest);
    crate::bit_field::lemma_shift_twice(q, offset + width, rest);
}

/// The low `count * width` bits of a number are determined by its first
/// `count` fields of `width` bits.
pub proof fn lemma_low_bits_from_fields(a: nat, b: nat, count: nat, width: nat)
    requires
        forall|j: int| 0 <= j < count ==> #[trigger] nth_field(a, width, j) == nth_field(b, width, j),
    ensures
        a % pow2(count * width) == b % pow2(count * width),
    decreases count,
{
    if count == 0 {
        assert(pow2(0) == 1) by {
            vstd::arithmetic::power2::lemma2_to64();
        }
    } else {
        let c = (count - 1) as nat;
        lemma_low_bits_from_fields(a, b, c, width);
        assert(c * width + width == count * width) by (nonlinear_arith)
            requires
                c == count - 1,
        ;
        lemma_pow2_pos(c * width);
        lemma_pow2_pos(width);
        lemma_pow2_adds(c * width, width);
        lemma_breakdown(a as int, pow2(c * width) as int, pow2(width) as int);
        lemma_breakdown(b as int, pow2(c * width) as int, pow2(width) as int);
        assert(nth_field(a, width, c as int) == nth_field(b, width, c as int));
    }
}

/// A backend is determined by its length, its registers and its padding.
pub proof fn lemma_registers_determine<W: Word>(a: Seq<W>, b: Seq<W>, count: nat, width: nat)
    requires
        a.len() == b.len(),
        registers_of(a, count, width) == registers_of(b, count, width),
        padding_of(a, count, width) == padding_of(b, count, width),
    ensures
        a == b,
{
    let p = packed_value(a);
    let q = packed_value(b);
    assert forall|j: int| 0 <= j < count implies #[trigger] nth_field(p, width, j) == nth_field(
        q,
        width,
        j,
    ) by {
        assert(registers_of(a, count, width)[j] == nth_field(p, width, j));
        assert(registers_of(b, count, width)[j] == nth_field(q, width, j));
    }
    lemma_low_bits_from_fields(p, q, count, width);
    lemma_pow2_pos(count * width);
    lemma_fundamental_div_mod(p as int, pow2(count * width) as int);
    lemma_fundamental_div_mod(q as int, pow2(count * width) as int);
    lemma_packed_injective(a, b);
}

/// Words that are all zero spell zero.
pub proof fn lemma_zero_words<W: Word>(words: Seq<W>)
    requires
        forall|i: int| 0 <= i < words.len() ==> (#[trigger] words[i]).value() == 0,
    ensures
        packed_value(words) == 0,
    decreases words.len(),
{
    if words.len() > 0 {
        lemma_zero_words(words.drop_last());
        assert(words.last().value() == 0);
        assert(0 * pow2(((words.len() - 1) * W::bits()) as nat) == 0);
    }
}

/// A backend that spells zero holds zero in every register and in its padding.
pub proof fn lemma_zero_registers<W: Word>(words: Seq<W>, count: nat, width: nat)
    requires
        packed_value(words) == 0,
    ensures
        registers_of(words, count, width) == Seq::new(count, |j: int| 0nat),
        padding_of(words, count, width) == 0,
{
    assert forall|j: int| 0 <= j < count implies #[trigger] registers_of(words, count, width)[j]
        == 0 by {
        assert(0 <= j * width) by (nonlinear_arith)
            requires
                0 <= j,
        ;
        lemma_pow2_pos((j * width) as nat);
        lemma_pow2_pos(width);
        lemma_small_mod(0, pow2((j * width) as nat));
        lemma_small_mod(0, pow2(width));
        vstd::arithmetic::div_mod::lemma_div_basics_1(pow2((j * width) as nat) as int);
    }
    assert(registers_of(words, count, width) =~= Seq::new(count, |j: int| 0nat));
    lemma_pow2_pos(count * width);
    vstd::arithmetic::div_mod::lemma_div_basics_1(pow2(count * width) as int);
}

} // verus!
