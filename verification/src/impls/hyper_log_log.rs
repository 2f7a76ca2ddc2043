//! The HyperLogLog estimation logic.

use crate::error::Error;
use crate::impls::default_estimator::DefaultEstimator;
use crate::packed::{read_field, write_field};
use crate::rank::{hash_index, hash_rank, index_of_hash, rank_of_hash};
use crate::registers::{
    lemma_write_register, lemma_zero_registers, lemma_zero_words, max_registers, padding_of,
    registers_of,
};
use crate::traits::estimator::{EstimationLogic, MergeEstimationLogic, SliceEstimationLogic};
use crate::word::Word;
use std::borrow::Borrow;
use std::hash::{BuildHasher, BuildHasherDefault, DefaultHasher, Hash};
use std::marker::PhantomData;
use vstd::arithmetic::power2::{lemma2_to64, lemma2_to64_rest, lemma_pow2_pos, pow2};
use vstd::bits::{lemma_u64_pow2_no_overflow, lemma_u64_shl_is_mul};
use vstd::prelude::*;

verus! {

/// `std::hash::BuildHasherDefault`, the build hasher that a builder starts
/// with. Nothing is known of what is inside.
#[verifier::external_type_specification]
#[verifier::external_body]
#[verifier::reject_recursive_types(H)]
pub struct ExBuildHasherDefault<H>(BuildHasherDefault<H>);

/// Whether a HyperLogLog logic can be built: with `2^log_2_num_regs`
/// registers of `register_size` bits each, packed in words of `bits` bits.
///
/// The number of registers is between `2^4` and `2^30`, a register fits in a
/// word, and it can hold the largest rank, `64 - log_2_num_regs + 1`.
pub open spec fn valid_parameters(log_2_num_regs: nat, register_size: nat, bits: nat) -> bool {
    &&& 4 <= log_2_num_regs <= 30
    &&& register_size <= bits
    &&& 64 - log_2_num_regs + 1 < pow2(register_size)
}

/// The least number of words of `bits` bits that hold `num_regs` registers of
/// `register_size` bits each.
pub open spec fn backend_words(num_regs: nat, register_size: nat, bits: nat) -> nat {
    ((num_regs * register_size + bits - 1) / (bits as int)) as nat
}

/// The logic of HyperLogLog estimators for items of type `T`, hashed by
/// hashers that `H` builds, with registers packed in words of type `W`.
///
/// A backend is a slice of [`backend_len`](HyperLogLog::backend_len) words.
/// Read as one number, first word least significant, it holds register `j`
/// in the `register_size` bits that start at bit `j * register_size`.
pub struct HyperLogLog<T, H, W: Word> {
    build_hasher: H,
    log_2_num_regs: u32,
    register_size: u32,
    words_per_estimator: usize,
    _marker: PhantomData<(T, W)>,
}

/// Builds a [`HyperLogLog`] logic.
pub struct HyperLogLogBuilder<H, W: Word> {
    build_hasher: H,
    log_2_num_regs: usize,
    register_size: usize,
    num_elements: usize,
    _marker: PhantomData<W>,
}

/// Calls `BuildHasherDefault::default` for the hash builder of a new
/// [`HyperLogLogBuilder`]. Nothing is claimed of the result.
#[verifier::external_body]
fn default_build_hasher() -> (build_hasher: BuildHasherDefault<DefaultHasher>) {
    BuildHasherDefault::default()
}

impl HyperLogLogBuilder<BuildHasherDefault<DefaultHasher>, u64> {
    /// Creates a builder for estimators that expect `n` distinct elements,
    /// with `2^4` registers of 6 bits and 64-bit words.
    pub fn new(n: usize) -> (builder: Self)
        ensures
            builder.spec_num_elements() == n,
            builder.spec_log_2_num_regs() == 4,
            builder.spec_register_size() == 6,
    {
        HyperLogLogBuilder {
            build_hasher: default_build_hasher(),
            log_2_num_regs: 4,
            register_size: 6,
            num_elements: n,
            _marker: PhantomData,
        }
    }
}

impl<H, W: Word> HyperLogLogBuilder<H, W> {
    /// The expected number of distinct elements.
    pub closed spec fn spec_num_elements(&self) -> nat {
        self.num_elements as nat
    }

    /// The builder of the hashers that hash the items.
    pub closed spec fn spec_build_hasher(&self) -> H {
        self.build_hasher
    }

    /// The logarithm of the number of registers.
    pub closed spec fn spec_log_2_num_regs(&self) -> nat {
        self.log_2_num_regs as nat
    }

    /// The width of a register, in bits.
    pub closed spec fn spec_register_size(&self) -> nat {
        self.register_size as nat
    }

    /// Sets the expected number of distinct elements. It is kept for later
    /// use and has no part in the layout.
    pub fn expected_distinct(self, n: usize) -> (builder: Self)
        ensures
            builder.spec_build_hasher() == self.spec_build_hasher(),
            builder.spec_num_elements() == n,
            builder.spec_log_2_num_regs() == self.spec_log_2_num_regs(),
            builder.spec_register_size() == self.spec_register_size(),
    {
        HyperLogLogBuilder {
            build_hasher: self.build_hasher,
            log_2_num_regs: self.log_2_num_regs,
            register_size: self.register_size,
            num_elements: n,
            _marker: PhantomData,
        }
    }

    /// Sets the logarithm of the number of registers.
    pub fn log_2_num_reg(self, log_2_num_regs: usize) -> (builder: Self)
        ensures
            builder.spec_build_hasher() == self.spec_build_hasher(),
            builder.spec_num_elements() == self.spec_num_elements(),
            builder.spec_log_2_num_regs() == log_2_num_regs,
            builder.spec_register_size() == self.spec_register_size(),
    {
        HyperLogLogBuilder {
            build_hasher: self.build_hasher,
            log_2_num_regs,
            register_size: self.register_size,
            num_elements: self.num_elements,
            _marker: PhantomData,
        }
    }

    /// Sets the width of a register, in bits.
    pub fn register_width(self, register_size: usize) -> (builder: Self)
        ensures
            builder.spec_build_hasher() == self.spec_build_hasher(),
            builder.spec_num_elements() == self.spec_num_elements(),
            builder.spec_log_2_num_regs() == self.spec_log_2_num_regs(),
            builder.spec_register_size() == register_size,
    {
        HyperLogLogBuilder {
            build_hasher: self.build_hasher,
            log_2_num_regs: self.log_2_num_regs,
            register_size,
            num_elements: self.num_elements,
            _marker: PhantomData,
        }
    }

    /// Sets the type of the words of a backend.
    pub fn word_type<W2: Word>(self) -> (builder: HyperLogLogBuilder<H, W2>)
        ensures
            builder.spec_build_hasher() == self.spec_build_hasher(),
            builder.spec_num_elements() == self.spec_num_elements(),
            builder.spec_log_2_num_regs() == self.spec_log_2_num_regs(),
            builder.spec_register_size() == self.spec_register_size(),
    {
        HyperLogLogBuilder {
            build_hasher: self.build_hasher,
            log_2_num_regs: self.log_2_num_regs,
            register_size: self.register_size,
            num_elements: self.num_elements,
            _marker: PhantomData,
        }
    }

    /// Sets the builder of the hashers that hash the items.
    pub fn build_hasher<H2>(self, build_hasher: H2) -> (builder: HyperLogLogBuilder<H2, W>)
        ensures
            builder.spec_build_hasher() == build_hasher,
            builder.spec_num_elements() == self.spec_num_elements(),
            builder.spec_log_2_num_regs() == self.spec_log_2_num_regs(),
            builder.spec_register_size() == self.spec_register_size(),
    {
        HyperLogLogBuilder {
            build_hasher,
            log_2_num_regs: self.log_2_num_regs,
            register_size: self.register_size,
            num_elements: self.num_elements,
            _marker: PhantomData,
        }
    }

    /// Builds the logic, or refuses the parameters.
    ///
    /// The parameters are accepted exactly when they are
    /// [valid](valid_parameters).
    pub fn build<T>(self) -> (result: Result<HyperLogLog<T, H, W>, Error>)
        ensures
            result is Ok <==> valid_parameters(
                self.spec_log_2_num_regs(),
                self.spec_register_size(),
                W::bits(),
            ),
            result matches Ok(logic) ==> {
                &&& logic.wf()
                &&& logic.spec_log_2_num_regs() == self.spec_log_2_num_regs()
                &&& logic.spec_register_size() == self.spec_register_size()
                &&& logic.spec_build_hasher() == self.spec_build_hasher()
            },
            result matches Err(e) ==> e == Error::InvalidParams,
    {
        let bits = W::word_bits();
        proof {
            W::lemma_bits();
            lemma2_to64();
            lemma2_to64_rest();
        }
        if self.log_2_num_regs < 4 || self.log_2_num_regs > 30 {
            return Err(Error::InvalidParams);
        }
        if self.register_size > bits as usize {
            return Err(Error::InvalidParams);
        }
        let log_2_num_regs = self.log_2_num_regs as u32;
        let register_size = self.register_size as u32;
        let largest_rank: u64 = 64 - log_2_num_regs as u64 + 1;
        if register_size < 64 {
            proof {
                lemma_pow2_pos(register_size as nat);
                lemma_u64_pow2_no_overflow(register_size as nat);
                lemma_u64_shl_is_mul(1, register_size as u64);
            }
            if (1u64 << register_size) <= largest_rank {
                return Err(Error::InvalidParams);
            }
        }
        let num_regs: u64 = 1u64 << log_2_num_regs;
        proof {
            lemma_pow2_pos(log_2_num_regs as nat);
            lemma_u64_pow2_no_overflow(log_2_num_regs as nat);
            lemma_u64_shl_is_mul(1, log_2_num_regs as u64);
            vstd::arithmetic::power2::lemma_pow2_strictly_increases(log_2_num_regs as nat, 31);
            assert(num_regs * register_size <= 0x8000_0000 * 64) by (nonlinear_arith)
                requires
                    num_regs <= 0x8000_0000,
                    register_size <= 64,
            ;
            lemma_words_bound(num_regs as nat, register_size as nat, bits as nat);
        }
        let words = (num_regs * (register_size as u64) + (bits as u64) - 1) / (bits as u64);
        Ok(
            HyperLogLog {
                build_hasher: self.build_hasher,
                log_2_num_regs,
                register_size,
                words_per_estimator: words as usize,
                _marker: PhantomData,
            },
        )
    }
}

/// Registers that fit in a word take no more words than there are registers,
/// and at least one word if there is a register of at least one bit.
pub proof fn lemma_words_bound(num_regs: nat, register_size: nat, bits: nat)
    requires
        0 < bits,
        register_size <= bits,
    ensures
        backend_words(num_regs, register_size, bits) <= num_regs,
        num_regs * register_size <= backend_words(num_regs, register_size, bits) * bits,
        num_regs * register_size > 0 ==> backend_words(num_regs, register_size, bits) > 0,
{
    let total = (num_regs * register_size) as int;
    let b = bits as int;
    let words = (total + b - 1) / b;
    assert(0 <= total && total <= num_regs * b) by (nonlinear_arith)
        requires
            total == num_regs * register_size,
            register_size <= b,
            0 <= register_size,
    ;
    vstd::arithmetic::div_mod::lemma_fundamental_div_mod(total + b - 1, b);
    vstd::arithmetic::div_mod::lemma_mod_bound(total + b - 1, b);
    assert(b * words == words * b) by (nonlinear_arith);
    if words > num_regs {
        assert(words * b >= (num_regs + 1) * b) by (nonlinear_arith)
            requires
                words >= num_regs + 1,
                0 < b,
        ;
        assert((num_regs + 1) * b == num_regs * b + b) by (nonlinear_arith);
    }
    if words <= 0 {
        assert(words * b <= 0) by (nonlinear_arith)
            requires
                words <= 0,
                0 < b,
        ;
    }
}

impl<T, H, W: Word> HyperLogLog<T, H, W> {
    /// The parameters are [valid](valid_parameters), and the logic holds the
    /// number of words that they ask for.
    #[verifier::type_invariant]
    pub closed spec fn wf(self) -> bool {
        &&& valid_parameters(self.log_2_num_regs as nat, self.register_size as nat, W::bits())
        &&& self.words_per_estimator == backend_words(
            pow2(self.log_2_num_regs as nat),
            self.register_size as nat,
            W::bits(),
        )
    }

    /// The logarithm of the number of registers.
    pub closed spec fn spec_log_2_num_regs(&self) -> nat {
        self.log_2_num_regs as nat
    }

    /// The width of a register, in bits.
    pub closed spec fn spec_register_size(&self) -> nat {
        self.register_size as nat
    }

    /// The builder of the hashers that hash the items.
    pub closed spec fn spec_build_hasher(&self) -> H {
        self.build_hasher
    }

    /// The number of registers.
    pub open spec fn spec_num_regs(&self) -> nat {
        pow2(self.spec_log_2_num_regs())
    }

    /// The number of words of a backend: the least that holds the registers.
    pub open spec fn spec_words(&self) -> nat {
        backend_words(self.spec_num_regs(), self.spec_register_size(), W::bits())
    }

    /// The logarithm of the number of registers.
    pub fn log_2_num_regs(&self) -> (p: usize)
        ensures
            p == self.spec_log_2_num_regs(),
    {
        proof {
            use_type_invariant(self);
        }
        self.log_2_num_regs as usize
    }

    /// The width of a register, in bits.
    pub fn register_size(&self) -> (r: usize)
        ensures
            r == self.spec_register_size(),
    {
        proof {
            use_type_invariant(self);
        }
        self.register_size as usize
    }

    /// The number of registers.
    pub fn num_regs(&self) -> (m: usize)
        ensures
            m == self.spec_num_regs(),
    {
        proof {
            use_type_invariant(self);
            lemma2_to64();
            lemma_pow2_pos(self.log_2_num_regs as nat);
            lemma_u64_pow2_no_overflow(self.log_2_num_regs as nat);
            lemma_u64_shl_is_mul(1, self.log_2_num_regs as u64);
            vstd::arithmetic::power2::lemma_pow2_strictly_increases(
                self.log_2_num_regs as nat,
                31,
            );
        }
        (1u64 << self.log_2_num_regs) as usize
    }
}

/// How many registers of a sequence hold zero.
pub open spec fn count_zeros(registers: Seq<nat>) -> nat
    decreases registers.len(),
{
    if registers.len() == 0 {
        0
    } else {
        count_zeros(registers.drop_last()) + if registers.last() == 0 {
            1nat
        } else {
            0nat
        }
    }
}

/// Calls `BuildHasher::hash_one` for the hash that a hasher built by
/// `build_hasher` gives to `item`. Nothing is claimed of the hash.
#[verifier::external_body]
fn hash_one<T: Hash, H: BuildHasher>(build_hasher: &H, item: &T) -> (hash: u64) {
    build_hasher.hash_one(item)
}

/// Calls `Borrow::borrow` for the item that `element` stands for. Nothing
/// is claimed of the item.
#[verifier::external_body]
fn borrow_item<T, B: Borrow<T>>(element: &B) -> (item: &T) {
    element.borrow()
}

impl<T, H, W: Word> HyperLogLog<T, H, W> {
    /// The registers that a backend holds.
    pub open spec fn registers(&self, backend: Seq<W>) -> Seq<nat> {
        registers_of(backend, self.spec_num_regs(), self.spec_register_size())
    }

    /// What a backend holds above its registers.
    pub open spec fn padding(&self, backend: Seq<W>) -> nat {
        padding_of(backend, self.spec_num_regs(), self.spec_register_size())
    }

    /// The register that a hash selects.
    pub open spec fn index_of(&self, hash: u64) -> int {
        index_of_hash(hash, self.spec_log_2_num_regs()) as int
    }

    /// The rank that a hash brings to its register: its
    /// [rank](rank_of_hash), or the largest value of a register if that is
    /// smaller.
    pub open spec fn rank_of(&self, hash: u64) -> nat {
        let rank = rank_of_hash(hash, self.spec_log_2_num_regs());
        let largest = (pow2(self.spec_register_size()) - 1) as nat;
        if rank <= largest {
            rank
        } else {
            largest
        }
    }

    /// The registers after an element with the given hash has been added:
    /// the register that the hash selects holds the rank of the hash, unless
    /// it held more.
    pub open spec fn registers_after_add(&self, registers: Seq<nat>, hash: u64) -> Seq<nat> {
        let j = self.index_of(hash);
        if self.rank_of(hash) > registers[j] {
            registers.update(j, self.rank_of(hash))
        } else {
            registers
        }
    }

    /// Facts about the layout that every routine needs.
    proof fn lemma_layout(&self)
        requires
            self.wf(),
        ensures
            4 <= self.log_2_num_regs <= 30,
            1 <= self.register_size <= W::bits() <= 64,
            self.log_2_num_regs == self.spec_log_2_num_regs(),
            self.register_size == self.spec_register_size(),
            0 < self.spec_num_regs() <= 0x4000_0000,
            self.words_per_estimator == self.spec_words(),
            0 < self.spec_words() <= self.spec_num_regs(),
            self.spec_num_regs() * self.spec_register_size() <= self.spec_words() * W::bits(),
            64 - self.log_2_num_regs + 1 < pow2(self.spec_register_size()),
    {
        W::lemma_bits();
        lemma2_to64();
        lemma_pow2_pos(self.log_2_num_regs as nat);
        if self.log_2_num_regs < 30 {
            vstd::arithmetic::power2::lemma_pow2_strictly_increases(
                self.log_2_num_regs as nat,
                30,
            );
        }
        lemma_words_bound(self.spec_num_regs(), self.register_size as nat, W::bits());
        assert(self.spec_num_regs() * self.register_size > 0) by (nonlinear_arith)
            requires
                self.spec_num_regs() > 0,
                self.register_size > 0,
        ;
    }

    /// Where register `index` lies in a backend.
    proof fn lemma_register_place(&self, index: int)
        requires
            self.wf(),
            0 <= index < self.spec_num_regs(),
        ensures
            0 <= index * self.register_size,
            index * self.register_size + self.register_size <= self.spec_words() * W::bits(),
            index * self.register_size <= 0x4000_0000 * 64,
    {
        self.lemma_layout();
        let r = self.register_size as int;
        let m = self.spec_num_regs() as int;
        assert(0 <= index * r && index * r + r <= m * r && index * r <= 0x4000_0000 * 64)
            by (nonlinear_arith)
            requires
                0 <= index < m,
                m <= 0x4000_0000,
                1 <= r <= 64,
        ;
    }

    /// The largest value that a register holds.
    fn largest_register(&self) -> (largest: u64)
        ensures
            largest == pow2(self.spec_register_size()) - 1,
    {
        proof {
            use_type_invariant(self);
            self.lemma_layout();
            lemma2_to64_rest();
        }
        if self.register_size < 64 {
            proof {
                lemma_pow2_pos(self.register_size as nat);
                lemma_u64_pow2_no_overflow(self.register_size as nat);
                lemma_u64_shl_is_mul(1, self.register_size as u64);
            }
            (1u64 << self.register_size) - 1
        } else {
            u64::MAX
        }
    }

    /// Reads a register of a backend.
    pub fn get_register(&self, backend: &[W], index: usize) -> (value: u64)
        requires
            backend@.len() == self.spec_words(),
            index < self.spec_num_regs(),
        ensures
            value == self.registers(backend@)[index as int],
            value < pow2(self.spec_register_size()),
    {
        proof {
            use_type_invariant(self);
            self.lemma_layout();
            self.lemma_register_place(index as int);
        }
        read_field(backend, (index as u64) * (self.register_size as u64), self.register_size)
    }

    /// Writes a register of a backend. Nothing else changes.
    pub fn set_register(&self, backend: &mut [W], index: usize, value: u64)
        requires
            old(backend)@.len() == self.spec_words(),
            index < self.spec_num_regs(),
            value < pow2(self.spec_register_size()),
        ensures
            final(backend)@.len() == old(backend)@.len(),
            self.registers(final(backend)@) == self.registers(old(backend)@).update(
                index as int,
                value as nat,
            ),
            self.padding(final(backend)@) == self.padding(old(backend)@),
    {
        proof {
            use_type_invariant(self);
            self.lemma_layout();
            self.lemma_register_place(index as int);
        }
        write_field(
            backend,
            (index as u64) * (self.register_size as u64),
            self.register_size,
            value,
        );
        proof {
            lemma_write_register(
                old(backend)@,
                backend@,
                self.spec_num_regs(),
                self.spec_register_size(),
                index as int,
                value as nat,
            );
        }
    }

    /// Adds an element, given its hash.
    ///
    /// The hash selects a register and brings a rank; the register takes
    /// the rank if it held less. No other register changes, nor does the
    /// padding.
    pub fn add_hash(&self, backend: &mut [W], hash: u64)
        requires
            old(backend)@.len() == self.spec_words(),
        ensures
            final(backend)@.len() == old(backend)@.len(),
            self.registers(final(backend)@) == self.registers_after_add(
                self.registers(old(backend)@),
                hash,
            ),
            self.padding(final(backend)@) == self.padding(old(backend)@),
    {
        proof {
            use_type_invariant(self);
            self.lemma_layout();
        }
        let index = hash_index(hash, self.log_2_num_regs) as usize;
        let rank = hash_rank(hash, self.log_2_num_regs);
        let largest = self.largest_register();
        let rank = if rank <= largest {
            rank
        } else {
            largest
        };
        let current = self.get_register(backend, index);
        if rank > current {
            self.set_register(backend, index, rank);
        }
    }

    /// How many registers of a backend hold zero.
    pub fn zero_registers(&self, backend: &[W]) -> (count: usize)
        requires
            backend@.len() == self.spec_words(),
        ensures
            count == count_zeros(self.registers(backend@)),
            count <= self.spec_num_regs(),
    {
        proof {
            use_type_invariant(self);
            self.lemma_layout();
        }
        let num_regs = self.num_regs();
        let ghost registers = self.registers(backend@);
        let mut count: usize = 0;
        let mut j: usize = 0;
        while j < num_regs
            invariant
                self.wf(),
                backend@.len() == self.spec_words(),
                num_regs == self.spec_num_regs(),
                registers == self.registers(backend@),
                j <= num_regs,
                count <= j,
                count == count_zeros(registers.take(j as int)),
            decreases num_regs - j,
        {
            let value = self.get_register(backend, j);
            proof {
                assert(registers.take(j + 1).drop_last() =~= registers.take(j as int));
            }
            if value == 0 {
                count += 1;
            }
            j += 1;
        }
        proof {
            assert(registers.take(num_regs as int) =~= registers);
        }
        count
    }
}

impl<T: Hash, H: BuildHasher, W: Word> EstimationLogic for HyperLogLog<T, H, W> {
    type Item = T;

    type Backend = [W];

    /// A backend is valid when it has as many words as the registers need.
    open spec fn valid_backend(&self, backend: Seq<W>) -> bool {
        backend.len() == self.spec_words()
    }

    /// The counters of a backend are its registers.
    open spec fn counters(&self, backend: Seq<W>) -> Seq<nat> {
        self.registers(backend)
    }

    /// Adding an element leaves the registers as some hash leaves them, and
    /// keeps the length and the padding.
    open spec fn added(&self, before: Seq<W>, after: Seq<W>) -> bool {
        &&& after.len() == before.len()
        &&& exists|hash: u64|
            self.registers(after) == #[trigger] self.registers_after_add(
                self.registers(before),
                hash,
            )
        &&& self.padding(after) == self.padding(before)
    }

    /// Clearing leaves every word at zero.
    open spec fn cleared(&self, backend: Seq<W>) -> bool {
        backend == Seq::new(backend.len(), |i: int| W::from_value(0))
    }

    /// Adds an element: hashes it and [adds the hash](HyperLogLog::add_hash).
    ///
    /// Nothing is known of the hash, so the registers end as some hash
    /// leaves them.
    fn add(&self, backend: &mut [W], element: impl Borrow<T>) {
        let hash = hash_one(&self.build_hasher, borrow_item(&element));
        self.add_hash(backend, hash);
        proof {
            use_type_invariant(self);
            self.lemma_add_is_monotone(self.registers(old(backend)@), hash);
        }
    }

    /// Clears a backend: every word becomes zero.
    fn clear(&self, backend: &mut [W])
        ensures
            final(backend)@.len() == old(backend)@.len(),
            self.padding(final(backend)@) == 0,
    {
        let len = backend.len();
        let zero = W::zero();
        proof {
            zero.lemma_value();
        }
        let mut i: usize = 0;
        while i < len
            invariant
                len == backend@.len(),
                backend@.len() == old(backend)@.len(),
                i <= len,
                zero == W::from_value(0),
                zero.value() == 0,
                forall|k: int| 0 <= k < i ==> backend@[k] == zero,
            decreases len - i,
        {
            backend[i] = zero;
            i += 1;
        }
        proof {
            assert(backend@ =~= Seq::new(old(backend)@.len(), |i: int| W::from_value(0)));
            lemma_zero_words(backend@);
            lemma_zero_registers(backend@, self.spec_num_regs(), self.spec_register_size());
        }
    }

    /// Copies the words of `src` into `dst`.
    fn set(&self, dst: &mut [W], src: &[W]) {
        let len = dst.len();
        let mut i: usize = 0;
        while i < len
            invariant
                len == dst@.len(),
                len == src@.len(),
                i <= len,
                forall|k: int| 0 <= k < i ==> dst@[k] == src@[k],
            decreases len - i,
        {
            dst[i] = src[i];
            i += 1;
        }
        proof {
            assert(dst@ =~= src@);
        }
    }
}

impl<T: Hash, H: BuildHasher, W: Word> MergeEstimationLogic for HyperLogLog<T, H, W> {
    /// Scratch words; merging register by register needs none.
    type Helper = Vec<W>;

    /// Merging leaves in each register the larger of the two values, and
    /// keeps the length and the padding of the destination.
    open spec fn merged(&self, dst: Seq<W>, src: Seq<W>, merged: Seq<W>) -> bool {
        self.is_merge(dst, src, merged)
    }

    /// Creates an empty helper.
    fn new_helper(&self) -> (helper: Vec<W>)
        ensures
            helper@.len() == 0,
    {
        Vec::new()
    }

    /// Merges `src` into `dst`: each register of `dst` takes the larger of
    /// the two values. The padding of `dst` stays.
    fn merge(&self, dst: &mut [W], src: &[W]) {
        let mut helper = self.new_helper();
        self.merge_with_helper(dst, src, &mut helper);
    }

    /// Merges `src` into `dst`: each register of `dst` takes the larger of
    /// the two values. The padding of `dst` and the helper stay.
    fn merge_with_helper(&self, dst: &mut [W], src: &[W], helper: &mut Vec<W>)
        ensures
            final(helper)@ == old(helper)@,
    {
        proof {
            use_type_invariant(self);
            self.lemma_layout();
        }
        let num_regs = self.num_regs();
        let ghost before = self.registers(old(dst)@);
        let ghost other = self.registers(src@);
        let mut j: usize = 0;
        while j < num_regs
            invariant
                self.wf(),
                num_regs == self.spec_num_regs(),
                dst@.len() == self.spec_words(),
                dst@.len() == old(dst)@.len(),
                src@.len() == self.spec_words(),
                before == self.registers(old(dst)@),
                other == self.registers(src@),
                self.padding(dst@) == self.padding(old(dst)@),
                j <= num_regs,
                forall|k: int|
                    0 <= k < j ==> #[trigger] self.registers(dst@)[k] == max_registers(
                        before,
                        other,
                    )[k],
                forall|k: int|
                    j <= k < num_regs ==> #[trigger] self.registers(dst@)[k] == before[k],
            decreases num_regs - j,
        {
            let theirs = self.get_register(src, j);
            let ours = self.get_register(dst, j);
            if theirs > ours {
                self.set_register(dst, j, theirs);
            }
            j += 1;
        }
        proof {
            assert(self.registers(dst@) =~= max_registers(before, other));
        }
    }
}

impl<T: Hash, H: BuildHasher, W: Word> SliceEstimationLogic<W> for HyperLogLog<T, H, W> {
    /// The least number of words that holds the registers.
    open spec fn spec_backend_len(&self) -> nat {
        self.spec_words()
    }

    proof fn lemma_valid_backend(&self, backend: Seq<W>) {
    }

    /// The word whose bits are all zero.
    open spec fn spec_empty_element(&self) -> W {
        W::from_value(0)
    }

    proof fn lemma_empty_backend(&self, backend: Seq<W>) {
        lemma_pow2_pos(W::bits());
        W::lemma_from_value(0);
        lemma_zero_words(backend);
        lemma_zero_registers(backend, self.spec_num_regs(), self.spec_register_size());
    }

    /// The least number of words that holds the registers.
    fn backend_len(&self) -> (len: usize) {
        proof {
            use_type_invariant(self);
            self.lemma_layout();
        }
        self.words_per_estimator
    }

    fn empty_element(&self) -> (element: W) {
        let zero = W::zero();
        proof {
            zero.lemma_value();
        }
        zero
    }
}

impl<T, H: Clone, W: Word> Clone for HyperLogLog<T, H, W> {
    /// The clone has the parameters of the logic it is made from, hence the
    /// same layout: it accepts the same backends and reads the same
    /// registers from them.
    fn clone(&self) -> (logic: Self)
        ensures
            logic.wf(),
            logic.spec_log_2_num_regs() == self.spec_log_2_num_regs(),
            logic.spec_register_size() == self.spec_register_size(),
            cloned(self.spec_build_hasher(), logic.spec_build_hasher()),
    {
        proof {
            use_type_invariant(self);
        }
        HyperLogLog {
            build_hasher: self.build_hasher.clone(),
            log_2_num_regs: self.log_2_num_regs,
            register_size: self.register_size,
            words_per_estimator: self.words_per_estimator,
            _marker: PhantomData,
        }
    }
}

impl<T: Hash, H: BuildHasher, W: Word> HyperLogLog<T, H, W> {
    /// Creates a new empty estimator using this logic: one that holds a
    /// reference to the logic and a backend of its own, every word of which
    /// is zero.
    pub fn new_estimator(&self) -> (estimator: DefaultEstimator<Self, &Self, Vec<W>>)
        ensures
            estimator.logic == self,
            estimator.backend@ == Seq::new(self.spec_words(), |i: int| W::from_value(0)),
            self.registers(estimator.backend@) == Seq::new(self.spec_num_regs(), |j: int| 0nat),
            self.padding(estimator.backend@) == 0,
    {
        proof {
            use_type_invariant(self);
            self.lemma_layout();
        }
        let zero = W::zero();
        proof {
            zero.lemma_value();
        }
        let mut backend: Vec<W> = Vec::with_capacity(self.words_per_estimator);
        let mut i: usize = 0;
        while i < self.words_per_estimator
            invariant
                i <= self.words_per_estimator,
                backend@.len() == i,
                zero == W::from_value(0),
                zero.value() == 0,
                forall|k: int| 0 <= k < i ==> backend@[k] == zero,
            decreases self.words_per_estimator - i,
        {
            backend.push(zero);
            i += 1;
        }
        proof {
            assert(backend@ =~= Seq::new(self.spec_words(), |i: int| W::from_value(0)));
            lemma_zero_words(backend@);
            lemma_zero_registers(backend@, self.spec_num_regs(), self.spec_register_size());
        }
        DefaultEstimator::new(self, backend)
    }
}

impl<T, H, W: Word> HyperLogLog<T, H, W> {
    /// Whether a backend has the length that this logic asks for.
    pub fn check_backend(&self, backend: &[W]) -> (result: Result<(), Error>)
        ensures
            result is Ok <==> backend@.len() == self.spec_words(),
            result matches Err(e) ==> e == Error::LengthMismatch,
    {
        proof {
            use_type_invariant(self);
            self.lemma_layout();
        }
        if backend.len() == self.words_per_estimator {
            Ok(())
        } else {
            Err(Error::LengthMismatch)
        }
    }

    /// Adding an element lowers no register, and leaves as many registers.
    pub proof fn lemma_add_is_monotone(&self, registers: Seq<nat>, hash: u64)
        requires
            self.wf(),
            registers.len() == self.spec_num_regs(),
        ensures
            self.registers_after_add(registers, hash).len() == registers.len(),
            forall|j: int|
                0 <= j < registers.len() ==> registers[j] <= #[trigger] self.registers_after_add(
                    registers,
                    hash,
                )[j],
    {
        self.lemma_layout();
        lemma_pow2_pos(self.spec_log_2_num_regs());
        vstd::arithmetic::div_mod::lemma_mod_bound(
            hash as int,
            pow2(self.spec_log_2_num_regs()) as int,
        );
    }
}

} // verus!
