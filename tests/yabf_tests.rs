use yabf::Yabf;

#[test]
fn lib_test_capacity_1() {
    let bf = Yabf::with_capacity(100);
    assert!(bf.is_empty());
    assert!(bf.capacity() >= 100);
}

#[test]
fn lib_test_capacity_2() {
    let mut bf = Yabf::default();
    assert!(bf.is_empty());
    bf.set_bit(129, true);
    bf.reserve(10);
    assert!(bf.capacity() >= 5 * 32);
}

#[test]
fn lib_test_iter() {
    let mut bf = Yabf::default();
    bf.set_bit(129, true);
    println!("{:?}", bf.positions());
    assert_eq!(bf.iter().next().unwrap(), 129);
    bf.set_bit(29, true);
    bf.set_bit(167, true);
    println!("{:?}", bf.positions());
}

#[test]
fn test_or() {
    let mut a = Yabf::default();
    let mut b = Yabf::default();
    a.set_bit(45, true);
    b.set_bit(44, true);
    b.set_bit(4444, true);
    assert!(a.bit(45));
    assert!(!a.bit(44));
    assert!(!a.bit(4444));
    a |= &b;
    assert!(a.bit(45));
    assert!(a.bit(44));
    assert!(a.bit(4444));

    let mut b = Yabf::default();
    b.set_bit(23, true);
    assert!(!a.bit(23));
    assert!(a.bit(45));
    a |= &b;
    assert!(a.bit(23));
    assert!(a.bit(45));
    assert!(a.bit(44));
    assert!(a.bit(4444));
}

#[test]
fn readme_1() {
    let mut a = Yabf::default();
    let mut b = Yabf::with_capacity(12345);
    // bits are false by default
    assert_eq!(a.bit(45), false);
    a.set_bit(12345, true);
    assert_eq!(a.bit(12345), true);
    b.set_bit(345, true);
    assert_eq!(b.bit(345), true);
}

#[test]
fn fresh_field_reads_false() {
    let a = Yabf::default();
    let b = Yabf::with_capacity(0);
    for n in [0usize, 1, 31, 32, 1000, usize::MAX] {
        assert!(!a.bit(n));
        assert!(!b.bit(n));
    }
    assert_eq!(a.internal_len(), 0);
    assert!(a.positions().is_empty());
    assert_eq!(a.iter().next(), None);
}

#[test]
fn set_bit_touches_only_its_bit() {
    let mut a = Yabf::default();
    a.set_bit(70, true);
    assert!(a.bit(70));
    assert!(!a.bit(69));
    assert!(!a.bit(71));
    assert!(!a.bit(38));
    assert_eq!(a.internal_len(), 3);
    a.set_bit(70, false);
    assert!(!a.bit(70));
    assert!(a.is_empty());
    assert_eq!(a.internal_len(), 3);
}

#[test]
fn set_bit_false_past_end_grows_with_zeros() {
    let mut a = Yabf::default();
    a.set_bit(100, false);
    assert_eq!(a.internal_len(), 4);
    assert!(a.is_empty());
    assert!(!a.bit(100));
}

#[test]
fn set_bit_twice_same_as_once() {
    let mut once = Yabf::default();
    let mut twice = Yabf::default();
    once.set_bit(5, true);
    once.set_bit(77, true);
    twice.set_bit(5, true);
    twice.set_bit(77, true);
    twice.set_bit(77, true);
    assert_eq!(once.positions(), twice.positions());
    assert_eq!(once.debug_string(), twice.debug_string());
    once.set_bit(5, false);
    twice.set_bit(5, false);
    twice.set_bit(5, false);
    assert_eq!(once.debug_string(), twice.debug_string());
}

#[test]
fn with_capacity_is_empty_and_large_enough() {
    for k in [0usize, 1, 31, 32, 33, 1000, 12345] {
        let a = Yabf::with_capacity(k);
        assert!(a.capacity() >= k);
        assert!(a.is_empty());
    }
}

#[test]
fn iteration_yields_set_positions_ascending() {
    let mut a = Yabf::default();
    let ps = [0usize, 15, 16, 31, 32, 47, 48, 63, 64, 100, 1000, 4095];
    for p in ps.iter().rev() {
        a.set_bit(*p, true);
    }
    assert_eq!(a.positions(), ps.to_vec());
    let mut it = a.iter();
    let mut seen = Vec::new();
    while let Some(p) = it.next() {
        seen.push(p);
    }
    assert_eq!(seen, ps.to_vec());
    assert_eq!(it.next(), None);
}

#[test]
fn iteration_over_dense_halves() {
    let mut low = Yabf::default();
    let mut high = Yabf::default();
    for i in 0..16usize {
        low.set_bit(32 + i, true);
        high.set_bit(32 + 16 + i, true);
    }
    assert_eq!(low.positions(), (32..48).collect::<Vec<usize>>());
    assert_eq!(high.positions(), (48..64).collect::<Vec<usize>>());
}

#[test]
fn iteration_after_clear_yields_nothing() {
    let mut a = Yabf::default();
    a.set_bit(3, true);
    a.clear();
    assert_eq!(a.internal_len(), 0);
    assert_eq!(a.iter().next(), None);
    assert!(!a.bit(3));
}

#[test]
fn merge_law_on_values() {
    let mut a = Yabf::default();
    let mut b = Yabf::default();
    a.set_bit(1, true);
    a.set_bit(300, true);
    b.set_bit(1, true);
    b.set_bit(2, true);
    let a_old = a.positions();
    a.merge(&b);
    for n in 0..400usize {
        assert_eq!(a.bit(n), a_old.contains(&n) || b.bit(n));
    }
    assert_eq!(a.internal_len(), 10);
}

#[test]
fn merge_keeps_longer_receiver() {
    let mut a = Yabf::default();
    let mut b = Yabf::default();
    a.set_bit(200, true);
    b.set_bit(3, true);
    a.merge(&b);
    assert_eq!(a.positions(), vec![3, 200]);
    assert_eq!(a.internal_len(), 7);
    assert_eq!(b.positions(), vec![3]);
}

#[test]
fn capacity_does_not_shrink() {
    let mut a = Yabf::default();
    let mut last = a.capacity();
    for n in [10usize, 500, 40, 2000, 7] {
        a.set_bit(n, true);
        assert!(a.capacity() >= last);
        last = a.capacity();
        a.reserve(n);
        assert!(a.capacity() >= last);
        last = a.capacity();
    }
}

#[test]
fn scenario_iterate_after_three_sets() {
    let mut bf = Yabf::default();
    bf.set_bit(129, true);
    assert_eq!(bf.positions(), vec![129]);
    bf.set_bit(29, true);
    bf.set_bit(167, true);
    assert_eq!(bf.positions(), vec![29, 129, 167]);
}

#[test]
fn scenario_merge_three_bits() {
    let mut a = Yabf::default();
    let mut b = Yabf::default();
    a.set_bit(45, true);
    b.set_bit(44, true);
    b.set_bit(4444, true);
    assert!(!a.bit(44));
    a.merge(&b);
    assert!(a.bit(45) && a.bit(44) && a.bit(4444));
}

#[test]
fn scenario_repeated_set_and_clear() {
    let mut bf = Yabf::default();
    for _ in 0..20 {
        for i in (0..2090usize).rev() {
            bf.set_bit(i, true);
        }
        for i in 0..2090usize {
            assert!(bf.bit(i));
        }
        for i in (0..2090usize).rev() {
            bf.set_bit(i, false);
        }
        assert!(bf.is_empty());
        for i in 0..2090usize {
            assert!(!bf.bit(i));
        }
    }
}

#[test]
fn debug_string_renders_words_highest_first() {
    let mut a = Yabf::default();
    assert_eq!(a.debug_string(), "Yabf:0x0");
    a.set_bit(0, true);
    a.set_bit(36, true);
    a.set_bit(63, true);
    assert_eq!(a.debug_string(), "Yabf:0x80000010_00000001_");
    a.set_bit(4, true);
    a.set_bit(31, true);
    assert_eq!(a.debug_string(), "Yabf:0x80000010_80000011_");
}

#[test]
fn far_index_grows_storage() {
    let mut a = Yabf::default();
    a.set_bit(1_000_000, true);
    assert!(a.bit(1_000_000));
    assert!(!a.bit(999_999));
    assert_eq!(a.internal_len(), 1_000_000 / 32 + 1);
    assert_eq!(a.positions(), vec![1_000_000]);
}

#[test]
fn clone_is_independent_copy() {
    let mut a = Yabf::default();
    a.set_bit(7, true);
    a.set_bit(90, true);
    let b = a.clone();
    a.set_bit(7, false);
    assert_eq!(b.positions(), vec![7, 90]);
    assert_eq!(a.positions(), vec![90]);
    let mut it = b.iter();
    assert_eq!(it.next(), Some(7));
    let mut it2 = it.clone();
    assert_eq!(it.next(), Some(90));
    assert_eq!(it2.next(), Some(90));
}

#[test]
fn capacity_is_whole_words() {
    let mut a = Yabf::with_capacity(100);
    assert_eq!(a.capacity() % 32, 0);
    assert!(a.capacity() >= 4 * 32);
    a.set_bit(1000, true);
    assert_eq!(a.capacity() % 32, 0);
    assert!(a.capacity() >= 32 * a.internal_len());
}
