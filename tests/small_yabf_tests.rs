use yabf::SmallYabf;

#[test]
fn test_capacity_0() {
    let mut bf = SmallYabf::default();

    assert!(bf.is_empty());
    assert_eq!(bf.capacity(), 4 * 32);
    bf.set_bit(30 + 32 * 0, true);
    assert_eq!(bf.bit(30 + 32 * 0), true);
    assert_eq!(bf.capacity(), 4 * 32);
    bf.set_bit(30 + 32 * 1, true);
    assert_eq!(bf.bit(30 + 32 * 1), true);
    assert_eq!(bf.capacity(), 4 * 32);
    bf.set_bit(30 + 32 * 2, true);
    assert_eq!(bf.bit(30 + 32 * 2), true);
    assert_eq!(bf.capacity(), 4 * 32);
    bf.set_bit(30 + 32 * 3, true);
    assert_eq!(bf.bit(30 + 32 * 3), true);
    assert_eq!(bf.capacity(), 4 * 32);
    bf.set_bit(30 + 32 * 4, true);
    assert_eq!(bf.bit(30 + 32 * 4), true);
    assert!(bf.capacity() >= 5 * 32);
}

#[test]
fn test_capacity_1() {
    let bf = SmallYabf::with_capacity(100);
    assert!(bf.is_empty());
    assert!(bf.capacity() >= 100);
}

#[test]
fn test_capacity_2() {
    let mut bf = SmallYabf::default();
    assert!(bf.is_empty());
    assert_eq!(bf.capacity(), 4 * 32);
    bf.set_bit(129, true);
    bf.reserve(10);
    assert!(bf.capacity() >= 5 * 32);
}

#[test]
fn test_iter() {
    let mut bf = SmallYabf::default();
    bf.set_bit(129, true);
    println!("{:?}", bf.positions());
    assert_eq!(bf.iter().next().unwrap(), 129);
    bf.set_bit(29, true);
    bf.set_bit(167, true);
    println!("{:?}", bf.positions());
}

#[test]
fn readme_2() {
    let mut a = SmallYabf::default();
    let mut b = SmallYabf::with_capacity(12345);
    a.set_bit(45, false);
    b.set_bit(12345, true);
    assert_eq!(a.bit(45), false);
    assert_eq!(b.bit(12345), true);
    assert_eq!(a.bit(12345), false);
}

#[test]
fn small_iteration_after_three_sets() {
    let mut bf = SmallYabf::default();
    bf.set_bit(129, true);
    assert_eq!(bf.positions(), vec![129]);
    bf.set_bit(29, true);
    bf.set_bit(167, true);
    assert_eq!(bf.positions(), vec![29, 129, 167]);
    let mut it = bf.iter();
    assert_eq!(it.next(), Some(29));
    assert_eq!(it.next(), Some(129));
    assert_eq!(it.next(), Some(167));
    assert_eq!(it.next(), None);
}

#[test]
fn small_set_and_clear_bits() {
    let mut bf = SmallYabf::default();
    bf.set_bit(3, true);
    bf.set_bit(40, true);
    assert!(bf.bit(3) && bf.bit(40));
    assert!(!bf.bit(4) && !bf.bit(39));
    assert_eq!(bf.internal_len(), 2);
    bf.set_bit(3, false);
    assert!(!bf.bit(3));
    assert!(bf.bit(40));
    assert!(!bf.is_empty());
    bf.set_bit(40, false);
    assert!(bf.is_empty());
    bf.clear();
    assert_eq!(bf.internal_len(), 0);
    assert_eq!(bf.iter().next(), None);
}

#[test]
fn small_merge() {
    let mut a = SmallYabf::default();
    let mut b = SmallYabf::default();
    a.set_bit(45, true);
    b.set_bit(44, true);
    b.set_bit(4444, true);
    assert!(!a.bit(44));
    a |= &b;
    assert!(a.bit(45) && a.bit(44) && a.bit(4444));
    assert_eq!(a.positions(), vec![44, 45, 4444]);
    let mut c = SmallYabf::default();
    c.set_bit(1, true);
    c.merge(&a);
    assert_eq!(c.positions(), vec![1, 44, 45, 4444]);
}

#[test]
fn small_debug_string() {
    let mut a = SmallYabf::default();
    assert_eq!(a.debug_string(), "SmallYabf:0x0");
    a.set_bit(33, true);
    a.set_bit(31, true);
    assert_eq!(a.debug_string(), "SmallYabf:0x00000002_80000000_");
}

#[test]
fn small_repeated_set_and_clear() {
    let mut bf = SmallYabf::default();
    for _ in 0..5 {
        for i in (0..2090usize).rev() {
            bf.set_bit(i, true);
        }
        for i in 0..2090usize {
            assert!(bf.bit(i));
        }
        for i in (0..2090usize).rev() {
            bf.set_bit(i, false);
        }
        assert!(bf.is_empty());
        for i in 0..2090usize {
            assert!(!bf.bit(i));
        }
    }
}

#[test]
fn small_clone_is_independent_copy() {
    let mut a = SmallYabf::default();
    a.set_bit(7, true);
    a.set_bit(300, true);
    let b = a.clone();
    a.set_bit(300, false);
    assert_eq!(b.positions(), vec![7, 300]);
    assert_eq!(a.positions(), vec![7]);
    assert_eq!(b.internal_len(), 10);
}

#[test]
fn small_capacity_is_whole_words() {
    let mut a = SmallYabf::with_capacity(1000);
    assert_eq!(a.capacity() % 32, 0);
    assert!(a.capacity() >= 32 * 32);
    a.set_bit(5000, true);
    assert_eq!(a.capacity() % 32, 0);
    assert!(a.capacity() >= 32 * a.internal_len());
}
