use card_est_array::error::Error;
use card_est_array::impls::{HyperLogLog, HyperLogLogBuilder, SliceEstimatorArray};
use card_est_array::traits::{
    AsSyncArray, EstimationLogic, Estimator, EstimatorArray, EstimatorArrayMut, EstimatorMut,
    MergeEstimator, SliceEstimationLogic, SyncEstimatorArray,
};
use card_est_array::word::Word;
use xxhash_rust::xxh3::Xxh3Builder;

fn logic(log2m: usize, seed: u64) -> HyperLogLog<u64, Xxh3Builder, u16> {
    HyperLogLogBuilder::new(0)
        .word_type::<u16>()
        .log_2_num_reg(log2m)
        .build_hasher(Xxh3Builder::new().with_seed(seed))
        .build()
        .unwrap()
}

fn rel_std(log2m: usize) -> f64 {
    1.106 / ((1u64 << log2m) as f64).sqrt()
}

fn estimate<T, H, W: Word>(logic: &HyperLogLog<T, H, W>, backend: &[W]) -> f64 {
    let num_regs = logic.num_regs();
    let m = num_regs as f64;
    let mut harmonic = 0.0;
    for j in 0..num_regs {
        harmonic += (-(logic.get_register(backend, j) as f64)).exp2();
    }
    let alpha = match num_regs {
        16 => 0.673,
        32 => 0.697,
        64 => 0.709,
        _ => 0.7213 / (1.0 + 1.079 / m),
    };
    let raw = alpha * m * m / harmonic;
    let zeros = logic.zero_registers(backend);
    if raw <= 2.5 * m && zeros > 0 {
        m * (m / zeros as f64).ln()
    } else {
        raw
    }
}

#[test]
fn new_array_is_empty_everywhere() {
    let array = SliceEstimatorArray::new(logic(6, 0), 5);
    assert_eq!(array.len(), 5);
    assert!(!array.is_empty());
    assert_eq!(array.as_ref().len(), 5 * 24);
    assert_eq!(array.logic().backend_len(), 24);
    for i in 0..5 {
        assert_eq!(array.get_backend(i), &[0u16; 24]);
        assert_eq!(array.logic().zero_registers(array.get_backend(i)), 64);
        let est = array.get_estimator(i);
        assert_eq!(est.as_ref(), &[0u16; 24]);
        assert_eq!(estimate(est.logic(), est.as_ref()), 0.0);
    }
}

#[test]
fn array_of_no_estimators() {
    let array = SliceEstimatorArray::new(logic(4, 0), 0);
    assert_eq!(array.len(), 0);
    assert!(array.is_empty());
    assert_eq!(array.check_index(0), Err(Error::IndexOutOfRange));
    assert!(EstimatorArray::is_empty(&array));
    assert_eq!(EstimatorArray::len(&array), 0);
}

#[test]
fn check_index_tells_an_index_out_of_range() {
    let array = SliceEstimatorArray::new(logic(4, 0), 3);
    assert_eq!(array.check_index(0), Ok(()));
    assert_eq!(array.check_index(2), Ok(()));
    assert_eq!(array.check_index(3), Err(Error::IndexOutOfRange));
    assert_eq!(array.check_index(usize::MAX), Err(Error::IndexOutOfRange));
}

#[test]
fn backends_are_disjoint_slices() {
    let mut array = SliceEstimatorArray::new(logic(4, 0), 3);
    for i in 0..3 {
        let backend = array.get_backend_mut(i);
        assert_eq!(backend.len(), 6);
        for (k, word) in backend.iter_mut().enumerate() {
            *word = (100 * i + k) as u16;
        }
    }
    let expected: Vec<u16> = (0..3).flat_map(|i| (0..6).map(move |k| 100 * i + k)).collect();
    assert_eq!(array.as_ref(), &expected[..]);
    assert_eq!(array.get_backend(0), &[0, 1, 2, 3, 4, 5]);
    assert_eq!(array.get_backend(1), &[100, 101, 102, 103, 104, 105]);
    assert_eq!(array.get_backend(2), &[200, 201, 202, 203, 204, 205]);
    assert_eq!(array.get_estimator(1).as_ref(), &[100, 101, 102, 103, 104, 105]);
    array.as_mut()[6] = 7;
    assert_eq!(array.get_backend(1), &[7, 101, 102, 103, 104, 105]);
    assert_eq!(array.get_backend(0), &[0, 1, 2, 3, 4, 5]);
}

#[test]
fn array_isolation() {
    let log2m = 8;
    let mut array = SliceEstimatorArray::new(logic(log2m, 21), 2);
    for x in 0..1000u64 {
        array.get_estimator_mut(0).add(x);
    }
    for x in 1_000_000..1_005_000u64 {
        array.get_estimator_mut(1).add(x);
    }
    let rsd = rel_std(log2m);
    let e0 = estimate(array.logic(), array.get_backend(0));
    let e1 = estimate(array.logic(), array.get_backend(1));
    assert!((1000.0 - e0).abs() / 1000.0 < 2.0 * rsd);
    assert!((5000.0 - e1).abs() / 5000.0 < 2.0 * rsd);
    let slot_1 = array.get_backend(1).to_vec();
    array.get_estimator_mut(0).clear();
    assert_eq!(array.get_backend(0), &vec![0u16; 96][..]);
    assert_eq!(array.get_backend(1), &slot_1[..]);
    assert_eq!(estimate(array.logic(), array.get_backend(0)), 0.0);
    assert_eq!(estimate(array.logic(), array.get_backend(1)), e1);
}

#[test]
fn array_level_merge() {
    let log2m = 8;
    let n = 2000u64;
    let mut array = SliceEstimatorArray::new(logic(log2m, 33), 2);
    for x in 0..n {
        array.get_estimator_mut(0).add(2 * x);
        array.get_estimator_mut(1).add(2 * x + 1);
    }
    let standalone = array.get_backend(1).to_vec();
    let slot_0 = array.get_backend(0).to_vec();
    array.get_estimator_mut(0).merge(&standalone);
    let rsd = rel_std(log2m);
    let double = (2 * n) as f64;
    let e0 = estimate(array.logic(), array.get_backend(0));
    let e1 = estimate(array.logic(), array.get_backend(1));
    assert!((double - e0).abs() / double < 2.0 * rsd);
    assert!((n as f64 - e1).abs() / double < 2.0 * rsd);
    assert_eq!(array.get_backend(1), &standalone[..]);
    let regs = |backend: &[u16]| -> Vec<u64> {
        (0..256).map(|j| array.logic().get_register(backend, j)).collect()
    };
    let (r0, r1, merged) = (regs(&slot_0), regs(&standalone), regs(array.get_backend(0)));
    for j in 0..256 {
        assert_eq!(merged[j], r0[j].max(r1[j]));
    }
}

#[test]
fn array_clear_resets_every_estimator() {
    let mut array = SliceEstimatorArray::new(logic(4, 1), 4);
    for i in 0..4 {
        for x in 0..100u64 {
            array.get_estimator_mut(i).add(x + 1000 * i as u64);
        }
        assert!(estimate(array.logic(), array.get_backend(i)) > 0.0);
    }
    array.clear();
    assert_eq!(array.len(), 4);
    assert_eq!(array.as_ref(), &vec![0u16; 24][..]);
    for i in 0..4 {
        assert_eq!(estimate(array.logic(), array.get_backend(i)), 0.0);
    }
}

#[test]
fn mutable_estimator_sets_and_reads_its_slot() {
    let mut array = SliceEstimatorArray::new(logic(4, 1), 3);
    let mut source = array.logic().new_estimator().into_owned();
    for x in 0..50u64 {
        source.add(x);
    }
    {
        let mut est = array.get_estimator_mut(2);
        est.set(source.as_ref());
        assert_eq!(est.as_ref(), source.as_ref());
        assert_eq!(est.logic().num_regs(), 16);
        let detached = est.into_owned();
        assert_eq!(detached.as_ref(), source.as_ref());
    }
    assert_eq!(array.get_backend(2), source.as_ref());
    assert_eq!(array.get_backend(0), &[0u16; 6]);
    assert_eq!(array.get_backend(1), &[0u16; 6]);
    array.get_estimator_mut(1).as_mut()[5] = 9;
    assert_eq!(array.get_backend(1), &[0, 0, 0, 0, 0, 9]);
    let view = array.get_estimator(2);
    let owned = view.into_owned();
    assert_eq!(owned.as_ref(), source.as_ref());
}

#[test]
fn sync_view_has_a_cell_for_each_word() {
    let mut array = SliceEstimatorArray::new(logic(4, 1), 3);
    array.get_backend_mut(1)[0] = 77;
    {
        let view = array.as_sync_array();
        assert_eq!(view.len(), 3);
        assert!(!view.is_empty());
        assert_eq!(view.logic().backend_len(), 6);
        assert_eq!(view.all_cells().len(), 18);
        for i in 0..3 {
            assert_eq!(view.get_cells(i).len(), 6);
        }
        assert_eq!(view.check_index(2), Ok(()));
        assert_eq!(view.check_index(3), Err(Error::IndexOutOfRange));
        let first = view.get_cells(1)[0].as_ptr();
        assert_eq!(first, view.all_cells()[6].as_ptr());
    }
    assert_eq!(array.len(), 3);
    assert_eq!(array.get_backend(1), &[77, 0, 0, 0, 0, 0]);

    let mut empty = SliceEstimatorArray::new(logic(4, 1), 0);
    let view = empty.as_sync_array();
    assert_eq!(view.len(), 0);
    assert!(view.is_empty());
}
