use rust_hdl::bits::Bits;

#[test]
fn add_wraps_in_one_word() {
    let a: Bits<8> = Bits::from_u64(200);
    let b: Bits<8> = Bits::from_u64(100);
    assert_eq!(a.add(&b).to_u64(), (200 + 100) % 256);
    assert_eq!(a.add(&b), Bits::<8>::from_u64(300 % 256));
}

#[test]
fn add_same_values_in_word_array() {
    let a: Bits<100> = Bits::from_u64(200);
    let b: Bits<100> = Bits::from_u64(100);
    assert_eq!(a.add(&b).to_u64(), 300);
    assert_eq!(a.add(&b), Bits::<100>::from_u64(300));
}

#[test]
fn add_carries_across_words() {
    let a: Bits<128> = Bits::from_u64(u64::MAX);
    let b: Bits<128> = Bits::from_u64(u64::MAX);
    let s = a.add(&b);
    assert_eq!(s.to_u64(), u64::MAX - 1);
    assert!(s.get_bit(64));
    assert!(!s.get_bit(65));
    let one: Bits<128> = Bits::from_u64(1);
    let t = a.add(&one);
    assert_eq!(t.to_u64(), 0);
    assert!(t.get_bit(64));
}

#[test]
fn sub_borrows_across_words() {
    let zero: Bits<100> = Bits::zero();
    let one: Bits<100> = Bits::from_u64(1);
    let m = zero.sub(&one);
    assert_eq!(m.to_u64(), u64::MAX);
    assert!(m.get_bit(99));
    assert!(m.all());
    assert_eq!(m.add(&one), zero);
    let small: Bits<8> = Bits::zero();
    assert_eq!(small.sub(&Bits::from_u64(1)).to_u64(), 255);
}

#[test]
fn from_u64_truncates() {
    let a: Bits<4> = Bits::from_u64(0x1F);
    assert_eq!(a.to_u64(), 0xF);
    let b: Bits<64> = Bits::from_u64(u64::MAX);
    assert_eq!(b.to_u64(), u64::MAX);
}

#[test]
fn shifting_by_width_or_more_gives_zero() {
    let a: Bits<8> = Bits::from_u64(0xA5);
    assert!(!a.shl(8).any());
    assert!(!a.shr(8).any());
    assert!(!a.shl(100).any());
    let b: Bits<100> = Bits::from_u64(u64::MAX).not();
    assert!(b.any());
    assert!(!b.shl(100).any());
    assert!(!b.shr(100).any());
    assert!(!b.shr(1000).any());
    let one: Bits<1> = Bits::from_u64(1);
    assert!(!one.shl(1).any());
}

#[test]
fn shifts_move_bits_and_fill_zero() {
    let a: Bits<8> = Bits::from_u64(0b1001_0110);
    assert_eq!(a.shl(3).to_u64(), 0b1011_0000);
    assert_eq!(a.shr(3).to_u64(), 0b0001_0010);
    let b: Bits<100> = Bits::from_u64(1);
    let c = b.shl(70);
    assert!(c.get_bit(70));
    assert_eq!(c.to_u64(), 0);
    assert_eq!(c.shr(70).to_u64(), 1);
}

#[test]
fn bitwise_operations() {
    let a: Bits<8> = Bits::from_u64(0b1100_1010);
    let b: Bits<8> = Bits::from_u64(0b1010_0110);
    assert_eq!(a.and(&b).to_u64(), 0b1000_0010);
    assert_eq!(a.or(&b).to_u64(), 0b1110_1110);
    assert_eq!(a.xor(&b).to_u64(), 0b0110_1100);
    assert_eq!(a.not().to_u64(), 0b0011_0101);
    let c: Bits<70> = Bits::from_u64(0b1100_1010);
    let d: Bits<70> = Bits::from_u64(0b1010_0110);
    assert_eq!(c.xor(&d).to_u64(), 0b0110_1100);
    assert!(c.not().get_bit(69));
}

#[test]
fn ordering_is_unsigned() {
    let a: Bits<8> = Bits::from_u64(3);
    let b: Bits<8> = Bits::from_u64(200);
    assert!(a.less_than(&b));
    assert!(!b.less_than(&a));
    let c: Bits<100> = Bits::from_u64(1).shl(80);
    let d: Bits<100> = Bits::from_u64(u64::MAX);
    assert!(d.less_than(&c));
    assert!(!c.less_than(&d));
    assert!(!c.less_than(&c));
}

#[test]
fn get_bits_beyond_width_reads_zero() {
    let a: Bits<8> = Bits::from_u64(0xFF);
    let hi: Bits<8> = a.get_bits::<8>(4);
    assert_eq!(hi.to_u64(), 0x0F);
    let none: Bits<4> = a.get_bits::<4>(8);
    assert_eq!(none.to_u64(), 0);
}

#[test]
fn comparison_operators_and_defaults() {
    let a: Bits<100> = Bits::from_u64(5);
    let b: Bits<100> = 7u64.into();
    assert!(a < b);
    assert!(b > a);
    assert!(a <= a.dup());
    let z: Bits<100> = Default::default();
    assert_eq!(z, Bits::zero());
    let t: Bits<1> = true.into();
    assert!(t.to_bool());
    let f: Bits<1> = false.into();
    assert!(!f.to_bool());
}
