//! What holds of HyperLogLog estimators whatever the elements and the
//! backends.

use crate::impls::hyper_log_log::{backend_words, HyperLogLog};
use crate::registers::{lemma_registers_determine, max_registers};
use crate::word::Word;
use vstd::arithmetic::power2::{lemma_pow2_pos, pow2};
use vstd::prelude::*;

verus! {

/// The number of words of a backend is the ceiling of the number of bits of
/// the registers over the number of bits of a word: the words hold the
/// registers, and no smaller number of words does.
pub proof fn law_backend_words_is_ceiling(num_regs: nat, register_size: nat, bits: nat)
    requires
        0 < bits,
    ensures
        num_regs * register_size <= backend_words(num_regs, register_size, bits) * bits,
        forall|words: nat|
            num_regs * register_size <= #[trigger] (words * bits) ==> backend_words(
                num_regs,
                register_size,
                bits,
            ) <= words,
{
    let total = (num_regs * register_size) as int;
    let b = bits as int;
    let ceiling = (total + b - 1) / b;
    assert(0 <= total) by (nonlinear_arith)
        requires
            total == num_regs * register_size,
    ;
    vstd::arithmetic::div_mod::lemma_fundamental_div_mod(total + b - 1, b);
    vstd::arithmetic::div_mod::lemma_mod_bound(total + b - 1, b);
    assert(b * ceiling == ceiling * b) by (nonlinear_arith);
    if ceiling < 0 {
        assert(ceiling * b <= -b) by (nonlinear_arith)
            requires
                ceiling <= -1,
                0 < b,
        ;
    }
    assert forall|words: nat| total <= #[trigger] (words * bits) implies ceiling <= words by {
        if words < ceiling {
            assert(words * b <= (ceiling - 1) * b) by (nonlinear_arith)
                requires
                    words <= ceiling - 1,
                    0 < b,
            ;
            assert((ceiling - 1) * b == ceiling * b - b) by (nonlinear_arith);
        }
    }
}

/// The pointwise maximum does not depend on the order of its arguments.
pub proof fn law_max_registers_commutative(a: Seq<nat>, b: Seq<nat>)
    requires
        a.len() == b.len(),
    ensures
        max_registers(a, b) == max_registers(b, a),
{
    assert(max_registers(a, b) =~= max_registers(b, a));
}

/// The pointwise maximum of three sequences does not depend on the grouping.
pub proof fn law_max_registers_associative(a: Seq<nat>, b: Seq<nat>, c: Seq<nat>)
    requires
        a.len() == b.len(),
        b.len() == c.len(),
    ensures
        max_registers(max_registers(a, b), c) == max_registers(a, max_registers(b, c)),
{
    assert(max_registers(max_registers(a, b), c) =~= max_registers(a, max_registers(b, c)));
}

/// The pointwise maximum of a sequence with itself is the sequence, and
/// taking the maximum with the same sequence a second time changes nothing.
pub proof fn law_max_registers_idempotent(a: Seq<nat>, b: Seq<nat>)
    requires
        a.len() == b.len(),
    ensures
        max_registers(a, a) == a,
        max_registers(max_registers(a, b), b) == max_registers(a, b),
{
    assert(max_registers(a, a) =~= a);
    assert(max_registers(max_registers(a, b), b) =~= max_registers(a, b));
}

impl<T, H, W: Word> HyperLogLog<T, H, W> {
    /// The registers after the elements with the given hashes have been
    /// added, one after the other.
    pub open spec fn registers_after_adds(&self, registers: Seq<nat>, hashes: Seq<u64>) -> Seq<
        nat,
    >
        decreases hashes.len(),
    {
        if hashes.len() == 0 {
            registers
        } else {
            self.registers_after_add(
                self.registers_after_adds(registers, hashes.drop_last()),
                hashes.last(),
            )
        }
    }

    /// Whether `merged` is what merging `src` into `dst` leaves in `dst`: as
    /// many words, in each register the larger of the two values, and the
    /// padding of `dst`.
    pub open spec fn is_merge(&self, dst: Seq<W>, src: Seq<W>, merged: Seq<W>) -> bool {
        &&& merged.len() == dst.len()
        &&& self.registers(merged) == max_registers(self.registers(dst), self.registers(src))
        &&& self.padding(merged) == self.padding(dst)
    }

    /// The register that a hash selects is one of the registers.
    pub proof fn law_index_in_range(&self, hash: u64)
        ensures
            0 <= self.index_of(hash) < self.spec_num_regs(),
    {
        lemma_pow2_pos(self.spec_log_2_num_regs());
        vstd::arithmetic::div_mod::lemma_mod_bound(
            hash as int,
            pow2(self.spec_log_2_num_regs()) as int,
        );
    }

    /// Adding an element a second time changes nothing.
    pub proof fn law_add_idempotent(&self, registers: Seq<nat>, hash: u64)
        requires
            registers.len() == self.spec_num_regs(),
        ensures
            self.registers_after_add(self.registers_after_add(registers, hash), hash)
                == self.registers_after_add(registers, hash),
    {
        self.law_index_in_range(hash);
    }

    /// Adding elements lowers no register, and leaves as many registers.
    pub proof fn law_adds_monotone(&self, registers: Seq<nat>, hashes: Seq<u64>)
        requires
            registers.len() == self.spec_num_regs(),
        ensures
            self.registers_after_adds(registers, hashes).len() == registers.len(),
            forall|j: int|
                0 <= j < registers.len() ==> registers[j] <= #[trigger] self.registers_after_adds(
                    registers,
                    hashes,
                )[j],
        decreases hashes.len(),
    {
        if hashes.len() > 0 {
            self.law_adds_monotone(registers, hashes.drop_last());
            self.law_index_in_range(hashes.last());
        }
    }

    /// Once an element has been added, its register holds at least its rank,
    /// whatever is added afterwards.
    pub proof fn law_added_is_counted(&self, registers: Seq<nat>, hashes: Seq<u64>, k: int)
        requires
            registers.len() == self.spec_num_regs(),
            0 <= k < hashes.len(),
        ensures
            self.registers_after_adds(registers, hashes)[self.index_of(hashes[k])] >= self.rank_of(
                hashes[k],
            ),
        decreases hashes.len(),
    {
        let earlier = hashes.drop_last();
        self.law_adds_monotone(registers, earlier);
        self.law_index_in_range(hashes.last());
        self.law_index_in_range(hashes[k]);
        if k < hashes.len() - 1 {
            self.law_added_is_counted(registers, earlier, k);
        }
    }

    /// Adding again elements that have been added changes nothing: after
    /// the elements of `hashes`, adding any elements that are all among them
    /// leaves every register as it is.
    pub proof fn law_add_again(&self, registers: Seq<nat>, hashes: Seq<u64>, again: Seq<u64>)
        requires
            registers.len() == self.spec_num_regs(),
            forall|k: int| 0 <= k < again.len() ==> hashes.contains(#[trigger] again[k]),
        ensures
            self.registers_after_adds(registers, hashes + again) == self.registers_after_adds(
                registers,
                hashes,
            ),
        decreases again.len(),
    {
        if again.len() == 0 {
            assert(hashes + again =~= hashes);
        } else {
            let earlier = again.drop_last();
            let hash = again.last();
            assert((hashes + again).drop_last() =~= hashes + earlier);
            assert((hashes + again).last() == hash);
            assert forall|k: int| 0 <= k < earlier.len() implies hashes.contains(
                #[trigger] earlier[k],
            ) by {
                assert(earlier[k] == again[k]);
            }
            self.law_add_again(registers, hashes, earlier);
            assert(hashes.contains(again[again.len() - 1]));
            let k = choose|k: int| 0 <= k < hashes.len() && hashes[k] == hash;
            self.law_added_is_counted(registers, hashes, k);
        }
    }

    /// What merging leaves is determined by the two backends.
    pub proof fn law_merge_determined(
        &self,
        dst: Seq<W>,
        src: Seq<W>,
        first: Seq<W>,
        second: Seq<W>,
    )
        requires
            self.is_merge(dst, src, first),
            self.is_merge(dst, src, second),
        ensures
            first == second,
    {
        lemma_registers_determine(
            first,
            second,
            self.spec_num_regs(),
            self.spec_register_size(),
        );
    }

    /// Merging is commutative: two backends with the same padding, merged
    /// either way, give the same backend.
    pub proof fn law_merge_commutative(&self, a: Seq<W>, b: Seq<W>, ab: Seq<W>, ba: Seq<W>)
        requires
            a.len() == b.len(),
            self.padding(a) == self.padding(b),
            self.is_merge(a, b, ab),
            self.is_merge(b, a, ba),
        ensures
            ab == ba,
    {
        law_max_registers_commutative(self.registers(a), self.registers(b));
        lemma_registers_determine(ab, ba, self.spec_num_regs(), self.spec_register_size());
    }

    /// Merging is associative: merging `c` into what merging `b` into `a`
    /// leaves gives what merging into `a` the merge of `c` into `b` gives.
    pub proof fn law_merge_associative(
        &self,
        a: Seq<W>,
        b: Seq<W>,
        c: Seq<W>,
        ab: Seq<W>,
        bc: Seq<W>,
        left: Seq<W>,
        right: Seq<W>,
    )
        requires
            self.is_merge(a, b, ab),
            self.is_merge(ab, c, left),
            self.is_merge(b, c, bc),
            self.is_merge(a, bc, right),
        ensures
            left == right,
    {
        law_max_registers_associative(self.registers(a), self.registers(b), self.registers(c));
        lemma_registers_determine(left, right, self.spec_num_regs(), self.spec_register_size());
    }

    /// Merging is idempotent: merging a backend into itself leaves it as it
    /// is, and merging the same backend a second time changes nothing.
    pub proof fn law_merge_idempotent(
        &self,
        a: Seq<W>,
        b: Seq<W>,
        aa: Seq<W>,
        once: Seq<W>,
        twice: Seq<W>,
    )
        requires
            self.is_merge(a, a, aa),
            self.is_merge(a, b, once),
            self.is_merge(once, b, twice),
        ensures
            aa == a,
            twice == once,
    {
        law_max_registers_idempotent(self.registers(a), self.registers(b));
        lemma_registers_determine(aa, a, self.spec_num_regs(), self.spec_register_size());
        lemma_registers_determine(twice, once, self.spec_num_regs(), self.spec_register_size());
    }

    /// Merging gives the registers of the union: the registers after adding
    /// to an empty estimator the elements of one list and then those of
    /// another are the pointwise maximum of the registers that each list
    /// alone leaves.
    pub proof fn law_merge_is_union(&self, first: Seq<u64>, second: Seq<u64>)
        ensures
            self.registers_after_adds(
                Seq::new(self.spec_num_regs(), |j: int| 0nat),
                first + second,
            ) == max_registers(
                self.registers_after_adds(Seq::new(self.spec_num_regs(), |j: int| 0nat), first),
                self.registers_after_adds(Seq::new(self.spec_num_regs(), |j: int| 0nat), second),
            ),
        decreases second.len(),
    {
        let empty = Seq::new(self.spec_num_regs(), |j: int| 0nat);
        self.law_adds_monotone(empty, first);
        if second.len() == 0 {
            assert(first + second =~= first);
            assert(self.registers_after_adds(empty, first) =~= max_registers(
                self.registers_after_adds(empty, first),
                empty,
            ));
        } else {
            let earlier = second.drop_last();
            let hash = second.last();
            assert((first + second).drop_last() =~= first + earlier);
            self.law_merge_is_union(first, earlier);
            self.law_adds_monotone(empty, earlier);
            self.law_adds_monotone(empty, first + earlier);
            self.law_index_in_range(hash);
            assert(self.registers_after_adds(empty, first + second) =~= max_registers(
                self.registers_after_adds(empty, first),
                self.registers_after_adds(empty, second),
            ));
        }
    }
}

} // verus!
