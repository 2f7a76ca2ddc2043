use card_est_array::impls::{HyperLogLog, HyperLogLogBuilder, SliceEstimatorArray};
use card_est_array::traits::{
    Estimator, EstimatorArray, EstimatorArrayMut, EstimatorMut, MergeEstimator,
};
use card_est_array::word::Word;
use xxhash_rust::xxh3::Xxh3Builder;

/// The number of trials to run to ensure a bad seed does not
/// fail the test
const NUM_TRIALS: u64 = 100;
/// The requires number of successes required for the test to pass
const REQUIRED_TRIALS: u64 = 90;

/// The relative standard deviation of an estimator with `2^log2m` registers.
fn rel_std(log2m: usize) -> f64 {
    1.106 / ((1u64 << log2m) as f64).sqrt()
}

/// The estimate that the registers of a backend give.
fn estimate<T, H, W: Word>(logic: &HyperLogLog<T, H, W>, backend: &[W]) -> f64 {
    let num_regs = logic.num_regs();
    let m = num_regs as f64;
    let mut harmonic = 0.0;
    for j in 0..num_regs {
        harmonic += (-(logic.get_register(backend, j) as f64)).exp2();
    }
    let alpha = match num_regs {
        16 => 0.673,
        32 => 0.697,
        64 => 0.709,
        _ => 0.7213 / (1.0 + 1.079 / m),
    };
    let raw = alpha * m * m / harmonic;
    let zeros = logic.zero_registers(backend);
    if raw <= 2.5 * m && zeros > 0 {
        m * (m / zeros as f64).ln()
    } else {
        raw
    }
}

#[test]
fn test_single() {
    let sizes = [1, 10, 100, 1000, 100_000];
    let log2ms = [4, 6, 8, 12];

    for size in sizes {
        for log2m in log2ms {
            let rsd = rel_std(log2m);
            let mut correct = 0;

            for trial in 0..NUM_TRIALS {
                let logic = HyperLogLogBuilder::new(size)
                    .word_type::<u16>()
                    .log_2_num_reg(log2m)
                    .build_hasher(Xxh3Builder::new().with_seed(trial))
                    .build()
                    .unwrap();
                let mut est = logic.new_estimator();
                let incr = (1 << 32) / size as i64;
                let mut x = i64::MIN;
                for _ in 0..size {
                    est.add(x);
                    x += incr;
                }

                let float_size = size as f64;

                if (float_size - estimate(est.logic(), est.as_ref())).abs() / float_size
                    < 2.0 * rsd
                {
                    correct += 1;
                }
            }

            assert!(
                correct >= REQUIRED_TRIALS,
                "assertion failed for size {} and log2m {}: correct = {} < {}",
                size,
                log2m,
                correct,
                REQUIRED_TRIALS
            );
        }
    }
}

#[test]
fn test_double() {
    let sizes = [1, 10, 100, 1000, 100_000];
    let log2ms = [4, 6, 8, 12];

    for size in sizes {
        for log2m in log2ms {
            let rsd = rel_std(log2m);
            let mut correct_0 = 0;
            let mut correct_1 = 0;

            for trial in 0..NUM_TRIALS {
                let logic = HyperLogLogBuilder::new(size)
                    .word_type::<u16>()
                    .log_2_num_reg(log2m)
                    .build_hasher(Xxh3Builder::new().with_seed(trial))
                    .build()
                    .unwrap();
                let mut est_0 = logic.new_estimator();
                let mut est_1 = logic.new_estimator();
                let incr = (1 << 32) / size as i64;
                let mut x = i64::MIN;
                for _ in 0..size {
                    est_0.add(x);
                    est_1.add(x);
                    x += incr;
                }

                let float_size = size as f64;

                if (float_size - estimate(est_0.logic(), est_0.as_ref())).abs() / float_size
                    < 2.0 * rsd
                {
                    correct_0 += 1;
                }
                if (float_size - estimate(est_1.logic(), est_1.as_ref())).abs() / float_size
                    < 2.0 * rsd
                {
                    correct_1 += 1;
                }
            }

            assert!(
                correct_0 >= REQUIRED_TRIALS,
                "assertion failed for size {} and log2m {}: correct_0 = {} < {}",
                size,
                log2m,
                correct_0,
                REQUIRED_TRIALS
            );
            assert!(
                correct_1 >= REQUIRED_TRIALS,
                "assertion failed for size {} and log2m {}: correct_1 = {} < {}",
                size,
                log2m,
                correct_1,
                REQUIRED_TRIALS
            );
        }
    }
}

#[test]
fn test_merge() {
    let sizes = [1, 10, 100, 1000, 100_000];
    let log2ms = [4, 6, 8, 12];

    for size in sizes {
        for log2m in log2ms {
            let rsd = rel_std(log2m);
            let mut correct_0 = 0;
            let mut correct_1 = 0;

            for trial in 0..NUM_TRIALS {
                let logic = HyperLogLogBuilder::new(size)
                    .word_type::<u16>()
                    .log_2_num_reg(log2m)
                    .build_hasher(Xxh3Builder::new().with_seed(trial))
                    .build()
                    .unwrap();
                let mut est_0 = logic.new_estimator();
                let mut est_1 = logic.new_estimator();
                let incr = (1 << 32) / (size * 2) as i64;
                let mut x = i64::MIN;
                for _ in 0..size {
                    est_0.add(x);
                    x += incr;
                    est_1.add(x);
                    x += incr;
                }

                est_0.merge(est_1.as_ref());

                let float_size = size as f64;

                if (float_size * 2.0 - estimate(est_0.logic(), est_0.as_ref())).abs()
                    / (float_size * 2.0)
                    < 2.0 * rsd
                {
                    correct_0 += 1;
                }
                if (float_size - estimate(est_1.logic(), est_1.as_ref())).abs()
                    / (float_size * 2.0)
                    < 2.0 * rsd
                {
                    correct_1 += 1;
                }
            }

            assert!(
                correct_0 >= REQUIRED_TRIALS,
                "assertion failed for size {} and log2m {}: correct_0 = {} < {}",
                size,
                log2m,
                correct_0,
                REQUIRED_TRIALS
            );
            assert!(
                correct_1 >= REQUIRED_TRIALS,
                "assertion failed for size {} and log2m {}: correct_1 = {} < {}",
                size,
                log2m,
                correct_1,
                REQUIRED_TRIALS
            );
        }
    }
}

#[test]
fn test_merge_array() {
    let sizes = [1, 10, 100, 1000, 100_000];
    let log2ms = [4, 6, 8, 12];

    for size in sizes {
        for log2m in log2ms {
            let rsd = rel_std(log2m);
            let mut correct_0 = 0;
            let mut correct_1 = 0;

            for trial in 0..NUM_TRIALS {
                let logic = HyperLogLogBuilder::new(size)
                    .word_type::<u16>()
                    .log_2_num_reg(log2m)
                    .build_hasher(Xxh3Builder::new().with_seed(trial))
                    .build()
                    .unwrap();
                let mut estimators = SliceEstimatorArray::new(logic, 2);
                let incr = (1 << 32) / (size * 2) as i64;
                let mut x = i64::MIN;
                for _ in 0..size {
                    estimators.get_estimator_mut(0).add(x);
                    x += incr;
                    estimators.get_estimator_mut(1).add(x);
                    x += incr;
                }

                let to_merge = estimators.get_backend(1).to_vec();
                let mut est = estimators.get_estimator_mut(0);
                est.merge(&to_merge);

                let float_size = size as f64;

                if (float_size * 2.0
                    - estimate(estimators.logic(), estimators.get_estimator(0).as_ref()))
                .abs()
                    / (float_size * 2.0)
                    < 2.0 * rsd
                {
                    correct_0 += 1;
                }
                if (float_size
                    - estimate(estimators.logic(), estimators.get_estimator(1).as_ref()))
                .abs()
                    / (float_size * 2.0)
                    < 2.0 * rsd
                {
                    correct_1 += 1;
                }
            }

            assert!(
                correct_0 >= REQUIRED_TRIALS,
                "assertion failed for size {} and log2m {}: correct_0 = {} < {}",
                size,
                log2m,
                correct_0,
                REQUIRED_TRIALS
            );
            assert!(
                correct_1 >= REQUIRED_TRIALS,
                "assertion failed for size {} and log2m {}: correct_1 = {} < {}",
                size,
                log2m,
                correct_1,
                REQUIRED_TRIALS
            );
        }
    }
}
