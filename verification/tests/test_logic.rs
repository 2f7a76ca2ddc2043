use card_est_array::error::Error;
use card_est_array::impls::{HyperLogLog, HyperLogLogBuilder};
use card_est_array::traits::{
    EstimationLogic, Estimator, EstimatorMut, MergeEstimationLogic, MergeEstimator,
    SliceEstimationLogic,
};
use card_est_array::word::Word;
use std::hash::{BuildHasherDefault, DefaultHasher};
use xxhash_rust::xxh3::Xxh3Builder;

type Logic<W> = HyperLogLog<u64, BuildHasherDefault<DefaultHasher>, W>;

fn logic_with<W: Word>(log2m: usize, register_size: usize) -> Logic<W> {
    HyperLogLogBuilder::new(0)
        .word_type::<W>()
        .log_2_num_reg(log2m)
        .register_width(register_size)
        .build()
        .unwrap()
}

fn registers<T, H, W: Word>(logic: &HyperLogLog<T, H, W>, backend: &[W]) -> Vec<u64> {
    (0..logic.num_regs()).map(|j| logic.get_register(backend, j)).collect()
}

/// The estimate that the registers of a backend give.
fn estimate<T, H, W: Word>(logic: &HyperLogLog<T, H, W>, backend: &[W]) -> f64 {
    let num_regs = logic.num_regs();
    let m = num_regs as f64;
    let mut harmonic = 0.0;
    for j in 0..num_regs {
        harmonic += (-(logic.get_register(backend, j) as f64)).exp2();
    }
    let alpha = match num_regs {
        16 => 0.673,
        32 => 0.697,
        64 => 0.709,
        _ => 0.7213 / (1.0 + 1.079 / m),
    };
    let raw = alpha * m * m / harmonic;
    let zeros = logic.zero_registers(backend);
    if raw <= 2.5 * m && zeros > 0 {
        m * (m / zeros as f64).ln()
    } else {
        raw
    }
}

#[test]
fn builder_defaults() {
    let logic: Logic<u64> = HyperLogLogBuilder::new(1000).build().unwrap();
    assert_eq!(logic.log_2_num_regs(), 4);
    assert_eq!(logic.register_size(), 6);
    assert_eq!(logic.num_regs(), 16);
    assert_eq!(logic.backend_len(), 2);
}

#[test]
fn expected_distinct_does_not_change_the_layout() {
    let small: Logic<u64> = HyperLogLogBuilder::new(1).expected_distinct(10).build().unwrap();
    let large: Logic<u64> =
        HyperLogLogBuilder::new(1).expected_distinct(1_000_000_000).build().unwrap();
    assert_eq!(small.backend_len(), large.backend_len());
    assert_eq!(small.register_size(), large.register_size());
    assert_eq!(small.num_regs(), large.num_regs());
}

#[test]
fn backend_len_is_the_ceiling() {
    assert_eq!(logic_with::<u64>(6, 6).backend_len(), 6);
    assert_eq!(logic_with::<u64>(4, 6).backend_len(), 2);
    assert_eq!(logic_with::<u16>(4, 6).backend_len(), 6);
    assert_eq!(logic_with::<u32>(4, 7).backend_len(), 4);
    assert_eq!(logic_with::<u8>(4, 7).backend_len(), 14);
    assert_eq!(logic_with::<u8>(5, 7).backend_len(), 28);
    assert_eq!(logic_with::<u64>(4, 64).backend_len(), 16);
    assert_eq!(logic_with::<u16>(12, 6).backend_len(), 1536);
    assert_eq!(logic_with::<u64>(30, 6).backend_len(), 100_663_296);
    assert_eq!(logic_with::<u64>(5, 7).backend_len(), 4);
}

#[test]
fn build_refuses_invalid_parameters() {
    let build = |log2m: usize, register_size: usize| {
        HyperLogLogBuilder::new(0)
            .word_type::<u16>()
            .log_2_num_reg(log2m)
            .register_width(register_size)
            .build::<u64>()
            .map(|_| ())
    };
    assert_eq!(build(3, 6), Err(Error::InvalidParams));
    assert_eq!(build(31, 6), Err(Error::InvalidParams));
    assert_eq!(build(0, 6), Err(Error::InvalidParams));
    assert_eq!(build(usize::MAX, 6), Err(Error::InvalidParams));
    assert_eq!(build(4, 5), Err(Error::InvalidParams));
    assert_eq!(build(4, 0), Err(Error::InvalidParams));
    assert_eq!(build(4, 17), Err(Error::InvalidParams));
    assert_eq!(build(4, usize::MAX), Err(Error::InvalidParams));
    assert_eq!(build(4, 6), Ok(()));
    assert_eq!(build(30, 6), Ok(()));
    assert_eq!(build(4, 16), Ok(()));
}

#[test]
fn check_backend_tells_a_length_mismatch() {
    let logic = logic_with::<u64>(6, 6);
    assert_eq!(logic.check_backend(&[0u64; 6]), Ok(()));
    assert_eq!(logic.check_backend(&[0u64; 5]), Err(Error::LengthMismatch));
    assert_eq!(logic.check_backend(&[0u64; 7]), Err(Error::LengthMismatch));
    assert_eq!(logic.check_backend(&[]), Err(Error::LengthMismatch));
}

#[test]
fn empty_estimator_estimates_zero() {
    let logic = logic_with::<u64>(6, 6);
    let est = logic.new_estimator();
    assert_eq!(est.as_ref(), &[0u64; 6]);
    assert_eq!(logic.zero_registers(est.as_ref()), 64);
    assert_eq!(estimate(&logic, est.as_ref()), 0.0);
}

#[test]
fn single_hash_sets_one_register() {
    let logic = logic_with::<u64>(6, 6);
    let mut backend = vec![0u64; 6];
    logic.add_hash(&mut backend, 42);
    let regs = registers(&logic, &backend);
    for (j, &value) in regs.iter().enumerate() {
        if j == (42 & 63) {
            assert_eq!(value, 59);
        } else {
            assert_eq!(value, 0);
        }
    }
    assert_eq!(logic.zero_registers(&backend), 63);
    let e = estimate(&logic, &backend);
    assert!(0.5 < e && e < 3.0);
    assert_eq!(e, 64.0 * (64.0f64 / 63.0).ln());
    // register 42 lies in bits 252..258, which straddle words 3 and 4
    assert_eq!(backend, vec![0, 0, 0, 59u64 << 60, 59 >> 4, 0]);
}

#[test]
fn single_element_estimates_about_one() {
    let logic: HyperLogLog<u64, _, u64> = HyperLogLogBuilder::new(1)
        .log_2_num_reg(6)
        .build_hasher(Xxh3Builder::new().with_seed(7))
        .build()
        .unwrap();
    let mut est = logic.new_estimator();
    est.add(42u64);
    let e = estimate(&logic, est.as_ref());
    assert!(0.5 < e && e < 3.0);
    assert_eq!(logic.zero_registers(est.as_ref()), 63);
    assert_ne!(est.as_ref(), &[0u64; 6]);
}

#[test]
fn add_accepts_items_and_references() {
    let logic: HyperLogLog<u64, _, u32> = HyperLogLogBuilder::new(1)
        .word_type::<u32>()
        .build_hasher(Xxh3Builder::new().with_seed(1))
        .build()
        .unwrap();
    let mut by_value = logic.new_estimator();
    let mut by_reference = logic.new_estimator();
    for x in 0..100u64 {
        by_value.add(x);
        by_reference.add(&x);
    }
    assert_eq!(by_value.as_ref(), by_reference.as_ref());
    assert!(logic.zero_registers(by_value.as_ref()) < 16);
}

#[test]
fn add_hash_takes_the_larger_rank() {
    let logic = logic_with::<u16>(4, 6);
    let mut backend = vec![0u16; 6];
    // register 3, rank 1
    logic.add_hash(&mut backend, (1 << 4) | 3);
    assert_eq!(logic.get_register(&backend, 3), 1);
    // register 3, rank 5
    logic.add_hash(&mut backend, (1 << 8) | 3);
    assert_eq!(logic.get_register(&backend, 3), 5);
    // register 3, rank 2: the register keeps 5
    logic.add_hash(&mut backend, (1 << 5) | 3);
    assert_eq!(logic.get_register(&backend, 3), 5);
    // the largest rank: all bits above the index are zero
    logic.add_hash(&mut backend, 15);
    assert_eq!(logic.get_register(&backend, 15), 61);
    let regs = registers(&logic, &backend);
    assert_eq!(regs, vec![0, 0, 0, 5, 0, 0, 0, 0, 0, 0, 0, 0, 0, 0, 0, 61]);
}

#[test]
fn add_is_idempotent() {
    let logic = logic_with::<u32>(5, 7);
    let hashes = [0x0123_4567_89ab_cdefu64, 0xdead_beef_0bad_f00d, 17, 1 << 40, u64::MAX, 0];
    let mut once = vec![0u32; logic.backend_len()];
    for &h in &hashes {
        logic.add_hash(&mut once, h);
    }
    let mut twice = once.clone();
    for &h in hashes.iter().rev() {
        let before = registers(&logic, &twice);
        logic.add_hash(&mut twice, h);
        let after = registers(&logic, &twice);
        for j in 0..before.len() {
            assert!(before[j] <= after[j]);
        }
    }
    assert_eq!(once, twice);
}

#[test]
fn clear_makes_every_register_zero() {
    let logic = logic_with::<u16>(4, 6);
    let mut backend = vec![0xffffu16; 6];
    logic.clear(&mut backend);
    assert_eq!(backend, vec![0u16; 6]);
    assert_eq!(registers(&logic, &backend), vec![0u64; 16]);
    assert_eq!(estimate(&logic, &backend), 0.0);

    let mut est = logic.new_estimator();
    for x in 0..1000u64 {
        est.add(x);
    }
    assert!(estimate(&logic, est.as_ref()) > 0.0);
    est.clear();
    assert_eq!(est.as_ref(), &[0u16; 6]);
    assert_eq!(estimate(&logic, est.as_ref()), 0.0);
}

#[test]
fn set_copies_the_backend() {
    let logic: HyperLogLog<u64, _, u16> = HyperLogLogBuilder::new(1)
        .word_type::<u16>()
        .log_2_num_reg(8)
        .build_hasher(Xxh3Builder::new().with_seed(3))
        .build()
        .unwrap();
    let mut src = logic.new_estimator();
    for x in 0..5000u64 {
        src.add(x);
    }
    let mut dst = logic.new_estimator();
    dst.add(123_456u64);
    dst.set(src.as_ref());
    assert_eq!(dst.as_ref(), src.as_ref());
    assert_eq!(estimate(&logic, dst.as_ref()), estimate(&logic, src.as_ref()));

    let mut raw = vec![0u16; logic.backend_len()];
    logic.set(&mut raw, src.as_ref());
    assert_eq!(&raw[..], src.as_ref());
}

#[test]
fn into_owned_detaches_the_backend() {
    let logic: HyperLogLog<u64, _, u64> = HyperLogLogBuilder::new(1)
        .log_2_num_reg(6)
        .build_hasher(Xxh3Builder::new().with_seed(5))
        .build()
        .unwrap();
    let mut view = logic.new_estimator();
    for x in 0..300u64 {
        view.add(x);
    }
    let before = view.as_ref().to_vec();
    let expected = estimate(&logic, &before);
    let borrowed = card_est_array::impls::DefaultEstimator::new(&logic, &before[..]);
    let mut owned = borrowed.into_owned();
    assert_eq!(owned.as_ref(), &before[..]);
    assert_eq!(estimate(owned.logic(), owned.as_ref()), expected);
    for x in 300..100_000u64 {
        owned.add(x);
    }
    assert_ne!(owned.as_ref(), &before[..]);
    assert_eq!(view.as_ref(), &before[..]);
    assert_eq!(estimate(&logic, view.as_ref()), expected);
    view.clear();
    assert_ne!(owned.as_ref(), view.as_ref());
}

#[test]
fn merge_equals_union() {
    let logic: HyperLogLog<u64, _, u64> = HyperLogLogBuilder::new(1500)
        .log_2_num_reg(6)
        .build_hasher(Xxh3Builder::new().with_seed(11))
        .build()
        .unwrap();
    let mut a = logic.new_estimator();
    let mut b = logic.new_estimator();
    let mut c = logic.new_estimator();
    for x in 0..=999u64 {
        a.add(x);
        c.add(x);
    }
    for x in 500..=1499u64 {
        b.add(x);
        c.add(x);
    }
    a.merge(b.as_ref());
    assert_eq!(a.as_ref(), c.as_ref());
    assert!((estimate(&logic, a.as_ref()) - estimate(&logic, c.as_ref())).abs() <= 1e-9);
}

#[test]
fn merge_is_idempotent() {
    let logic: HyperLogLog<u64, _, u16> = HyperLogLogBuilder::new(1500)
        .word_type::<u16>()
        .log_2_num_reg(6)
        .build_hasher(Xxh3Builder::new().with_seed(13))
        .build()
        .unwrap();
    let mut a = logic.new_estimator();
    let mut b = logic.new_estimator();
    for x in 0..1000u64 {
        a.add(x);
        b.add(x + 500);
    }
    a.merge(b.as_ref());
    let once = a.as_ref().to_vec();
    for _ in 0..10 {
        a.merge(b.as_ref());
        assert_eq!(a.as_ref(), &once[..]);
    }
    let itself = once.clone();
    a.merge(&itself);
    assert_eq!(a.as_ref(), &once[..]);
}

#[test]
fn merge_is_commutative_and_associative() {
    let logic = logic_with::<u32>(4, 7);
    let len = logic.backend_len();
    let fill = |seed: u64| {
        let mut backend = vec![0u32; len];
        let mut h = seed;
        for _ in 0..40 {
            h = h.wrapping_mul(6364136223846793005).wrapping_add(1442695040888963407);
            logic.add_hash(&mut backend, h);
        }
        backend
    };
    let (a, b, c) = (fill(1), fill(2), fill(3));
    let merged = |x: &[u32], y: &[u32]| {
        let mut out = x.to_vec();
        logic.merge(&mut out, y);
        out
    };
    assert_eq!(merged(&a, &b), merged(&b, &a));
    assert_eq!(merged(&merged(&a, &b), &c), merged(&a, &merged(&b, &c)));
    assert_eq!(merged(&a, &a), a);
    let ab = merged(&a, &b);
    let ra = registers(&logic, &a);
    let rb = registers(&logic, &b);
    let rab = registers(&logic, &ab);
    for j in 0..16 {
        assert_eq!(rab[j], ra[j].max(rb[j]));
    }
}

#[test]
fn merge_with_helper_leaves_the_helper() {
    let logic = logic_with::<u64>(4, 6);
    let mut helper = logic.new_helper();
    assert!(helper.len() <= logic.backend_len());
    let before = helper.clone();
    let mut dst = vec![0u64; 2];
    let mut src = vec![0u64; 2];
    logic.set_register(&mut dst, 0, 7);
    logic.set_register(&mut dst, 10, 3);
    logic.set_register(&mut src, 0, 5);
    logic.set_register(&mut src, 10, 9);
    logic.set_register(&mut src, 15, 61);
    logic.merge_with_helper(&mut dst, &src, &mut helper);
    assert_eq!(helper, before);
    assert_eq!(
        registers(&logic, &dst),
        vec![7, 0, 0, 0, 0, 0, 0, 0, 0, 0, 9, 0, 0, 0, 0, 61]
    );
    let mut est = logic.new_estimator();
    est.merge_with_helper(&dst, &mut helper);
    assert_eq!(est.as_ref(), &dst[..]);
}

#[test]
fn merge_keeps_the_padding_of_the_destination() {
    // 16 registers of 6 bits take 96 of the 128 bits of two words
    let logic = logic_with::<u64>(4, 6);
    let mut dst = vec![0u64, 0xabcd_0000_0000_0000];
    let src = vec![u64::MAX, 0x1234_0000_ffff_ffff];
    logic.merge(&mut dst, &src);
    assert_eq!(dst, vec![u64::MAX, 0xabcd_0000_ffff_ffff]);
}

#[test]
fn registers_round_trip() {
    fn round_trip<W: Word + PartialEq + std::fmt::Debug>(log2m: usize, register_size: usize) {
        let logic = logic_with::<W>(log2m, register_size);
        let num_regs = logic.num_regs();
        let largest = if register_size == 64 { u64::MAX } else { (1u64 << register_size) - 1 };
        let mut backend = vec![W::zero(); logic.backend_len()];
        let mut expected = vec![0u64; num_regs];
        let mut value = 1u64;
        for round in 0..3 {
            for j in 0..num_regs {
                let j = if round == 1 { num_regs - 1 - j } else { j };
                value = value.wrapping_mul(6364136223846793005).wrapping_add(1442695040888963407);
                let k = if round == 2 { largest } else { (value >> 11) & largest };
                logic.set_register(&mut backend, j, k);
                expected[j] = k;
                assert_eq!(logic.get_register(&backend, j), k);
                if j > 0 {
                    assert_eq!(logic.get_register(&backend, j - 1), expected[j - 1]);
                }
                if j + 1 < num_regs {
                    assert_eq!(logic.get_register(&backend, j + 1), expected[j + 1]);
                }
            }
            assert_eq!(registers(&logic, &backend), expected);
        }
        for j in 0..num_regs {
            logic.set_register(&mut backend, j, 0);
        }
        assert_eq!(backend, vec![W::zero(); logic.backend_len()]);
    }
    round_trip::<u8>(4, 6);
    round_trip::<u8>(4, 7);
    round_trip::<u8>(5, 8);
    round_trip::<u16>(4, 6);
    round_trip::<u16>(6, 11);
    round_trip::<u16>(4, 16);
    round_trip::<u32>(4, 6);
    round_trip::<u32>(5, 31);
    round_trip::<u32>(4, 32);
    round_trip::<u64>(4, 6);
    round_trip::<u64>(6, 6);
    round_trip::<u64>(4, 63);
    round_trip::<u64>(4, 64);
    round_trip::<usize>(4, 6);
    round_trip::<usize>(7, 13);
}

#[test]
fn writes_do_not_touch_the_padding() {
    let logic = logic_with::<u64>(4, 6);
    let mut backend = vec![0u64, 0xffff_ffff_0000_0000];
    for j in 0..16 {
        logic.set_register(&mut backend, j, 63);
    }
    assert_eq!(backend, vec![u64::MAX, u64::MAX]);
    for j in 0..16 {
        logic.set_register(&mut backend, j, 0);
    }
    assert_eq!(backend, vec![0, 0xffff_ffff_0000_0000]);
    let mut zero_padding = vec![0u64; 2];
    for h in 0..10_000u64 {
        logic.add_hash(&mut zero_padding, h.wrapping_mul(0x9e37_79b9_7f4a_7c15));
    }
    assert_eq!(zero_padding[1] >> 32, 0);
}

#[test]
fn zero_registers_counts() {
    let logic = logic_with::<u16>(4, 6);
    let mut backend = vec![0u16; 6];
    assert_eq!(logic.zero_registers(&backend), 16);
    logic.set_register(&mut backend, 0, 1);
    logic.set_register(&mut backend, 7, 63);
    logic.set_register(&mut backend, 15, 2);
    assert_eq!(logic.zero_registers(&backend), 13);
    logic.set_register(&mut backend, 7, 0);
    assert_eq!(logic.zero_registers(&backend), 14);
}

#[test]
fn estimate_of_full_registers_is_the_raw_estimate() {
    let logic = logic_with::<u64>(4, 6);
    let mut backend = vec![0u64; 2];
    for j in 0..16 {
        logic.set_register(&mut backend, j, 2);
    }
    // no register is zero: alpha * m^2 / (16 / 4)
    assert_eq!(estimate(&logic, &backend), 0.673 * 256.0 / 4.0);
}

#[test]
fn clone_has_the_same_layout() {
    let logic: HyperLogLog<u64, _, u16> = HyperLogLogBuilder::new(1)
        .word_type::<u16>()
        .log_2_num_reg(8)
        .register_width(7)
        .build_hasher(Xxh3Builder::new().with_seed(3))
        .build()
        .unwrap();
    let clone = logic.clone();
    assert_eq!(clone.log_2_num_regs(), 8);
    assert_eq!(clone.register_size(), 7);
    assert_eq!(clone.backend_len(), logic.backend_len());
    let mut a = logic.new_estimator();
    let mut b = clone.new_estimator();
    for x in 0..1000u64 {
        a.add(x);
        b.add(x);
    }
    assert_eq!(a.as_ref(), b.as_ref());
}

#[test]
fn as_mut_writes_to_the_backend() {
    let logic = logic_with::<u64>(4, 6);
    let mut est = logic.new_estimator();
    est.as_mut()[0] = 5;
    assert_eq!(est.as_ref(), &[5u64, 0]);
    assert_eq!(logic.get_register(est.as_ref(), 0), 5);
    assert_eq!(est.logic().backend_len(), 2);
    assert_eq!(logic.empty_element(), 0);
}
