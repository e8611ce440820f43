use byte_set::chunk::{lsb, msb, pop_lsb, pop_msb};

#[test]
fn word_bit_scans() {
    assert_eq!(lsb(0), None);
    assert_eq!(msb(0), None);
    assert_eq!(lsb(1), Some(0));
    assert_eq!(msb(1), Some(0));
    assert_eq!(lsb(0b1010_0000), Some(5));
    assert_eq!(msb(0b1010_0000), Some(7));
    assert_eq!(lsb(u64::MAX), Some(0));
    assert_eq!(msb(u64::MAX), Some(63));
    assert_eq!(lsb(1u64 << 63), Some(63));
}

#[test]
fn word_bit_pops() {
    let mut w: u64 = 0b1010_0000;
    assert_eq!(pop_lsb(&mut w), Some(5));
    assert_eq!(w, 0b1000_0000);
    assert_eq!(pop_msb(&mut w), Some(7));
    assert_eq!(w, 0);
    assert_eq!(pop_lsb(&mut w), None);
    assert_eq!(pop_msb(&mut w), None);

    let mut full = u64::MAX;
    assert_eq!(pop_msb(&mut full), Some(63));
    assert_eq!(full, u64::MAX >> 1);
}
