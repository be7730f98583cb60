use common::bit_set::BitSet;

#[test]
fn get() {
    let set = BitSet::<2>::from_u16(0xF00F);
    for i in (0..4).chain(12..16) {
        assert!(set.get(i), "bit {i} wasn't set");
    }
    for i in 4..12 {
        assert!(!set.get(i), "bit {i} was set");
    }
    let set = BitSet::<2>::from_u16(0x00FF);
    for i in 0..8 {
        assert!(set.get(i), "bit {i} wasn't set");
    }
    for i in 8..16 {
        assert!(!set.get(i), "bit {i} was set");
    }
}

#[test]
fn set() {
    let mut set = BitSet::<2>::from_u16(0b1010_1010_0000_0000);
    set.set(10, true);
    assert_eq!(BitSet::from_u16(0b1010_1110_0000_0000), set);
    set.set(11, false);
    assert_eq!(BitSet::from_u16(0b1010_0110_0000_0000), set);
}

#[test]
fn union() {
    assert_eq!(
        BitSet::<1>::from_u8(0b1010_1111),
        BitSet::from_u8(0b1010_1010).union(&BitSet::from_u8(0b0000_1111))
    );
}

#[test]
fn shift() {
    assert_eq!(
        BitSet::<4>::from_u32(0x03_02_01_00u32),
        BitSet::from_u32(0x04_03_02_01u32).shl(8)
    );
    assert_eq!(
        BitSet::<2>::from_u16(0b1000_0010_0000_0000),
        BitSet::from_u16(0b1111_1111_1100_0001).shl(9)
    );
}

#[test]
fn flip_and_count() {
    let mut set = BitSet::<2>::from_u16(0b0000_0101_1010_1111);
    assert_eq!(8, set.count());
    set.flip(0);
    assert_eq!(7, set.count());
    set.flip(15);
    assert_eq!(8, set.count());
    assert!(set.get(15));
}

#[test]
fn emptiness() {
    let mut set = BitSet::<2>::from_u16(0x0400);
    assert!(set.any());
    assert!(!set.none());
    set.clear();
    assert!(set.none());
    assert!(!set.any());
    assert_eq!(set, BitSet::default());
}

#[test]
fn intersection() {
    assert_eq!(
        BitSet::<1>::from_u8(0b0000_1010),
        BitSet::from_u8(0b1010_1010).intersection(&BitSet::from_u8(0b0000_1111))
    );
}

#[test]
fn round_trips() {
    assert_eq!(0xF00Fu16, BitSet::<2>::from_u16(0xF00F).to_u16());
    assert_eq!(0xABu8, BitSet::<1>::from_u8(0xAB).to_u8());
    assert_eq!(0xDEAD_BEEFu32, BitSet::<4>::from_u32(0xDEAD_BEEF).to_u32());
    assert_eq!(0x0123_4567_89AB_CDEFu64, BitSet::<8>::from_u64(0x0123_4567_89AB_CDEF).to_u64());
    assert_eq!(
        0xfedc_ba98_7654_3210u128,
        BitSet::<16>::from_u128(0xfedc_ba98_7654_3210).to_u128()
    );
}

#[test]
fn bit_iteration() {
    let set = BitSet::<1>::from_u8(0b0000_0101);
    let mut iter = set.bits();
    assert_eq!(8, iter.len());
    assert_eq!(Some(true), iter.next());
    assert_eq!(Some(false), iter.next());
    assert_eq!(Some(true), iter.next());
    assert_eq!(Some(false), iter.next_back());
    assert_eq!(4, iter.len());
}

#[test]
fn debug() {
    assert_eq!(
        "Bitset(0x00000000fedcba9876543210)",
        BitSet::<16>::from_u128(0xfedc_ba98_7654_3210u128).fmt_debug(false)
    );
    assert_eq!(
        "Bitset(0b0000010110101111)",
        BitSet::<2>::from_u16(0b0000_0101_1010_1111u16).fmt_debug(true)
    );

    assert_eq!(
        "Bitset(00000000fedcba9876543210)",
        BitSet::<16>::from_u128(0xfedc_ba98_7654_3210u128).fmt_lower_hex(false)
    );
    assert_eq!(
        "Bitset(00000000FEDCBA9876543210)",
        BitSet::<16>::from_u128(0xfedc_ba98_7654_3210u128).fmt_upper_hex(false)
    );
    assert_eq!(
        "Bitset(0000010110101111)",
        BitSet::<2>::from_u16(0b0000_0101_1010_1111u16).fmt_binary(false)
    );

    assert_eq!(
        "Bitset(0x00000000fedcba9876543210)",
        BitSet::<16>::from_u128(0xfedc_ba98_7654_3210u128).fmt_lower_hex(true)
    );
    assert_eq!(
        "Bitset(0X00000000FEDCBA9876543210)",
        BitSet::<16>::from_u128(0xfedc_ba98_7654_3210u128).fmt_upper_hex(true)
    );
    assert_eq!(
        "Bitset(0b0000010110101111)",
        BitSet::<2>::from_u16(0b0000_0101_1010_1111u16).fmt_binary(true)
    );
}
