use cantor::uint::Unsigned;
use cantor::uint::u0;

#[test]
fn test_ones_and_one_at() {
    assert_eq!(<u8 as Unsigned>::ones(0), 0);
    assert_eq!(<u8 as Unsigned>::ones(3), 0b111);
    assert_eq!(<u8 as Unsigned>::ones(8), 0xff);
    assert_eq!(<u8 as Unsigned>::one_at(0), 1);
    assert_eq!(<u8 as Unsigned>::one_at(7), 0x80);
    assert_eq!(<u16 as Unsigned>::ones(16), 0xffff);
    assert_eq!(<u32 as Unsigned>::ones(32), 0xffff_ffff);
    assert_eq!(<u64 as Unsigned>::ones(64), u64::MAX);
    assert_eq!(<u128 as Unsigned>::ones(128), u128::MAX);
    assert_eq!(<u128 as Unsigned>::one_at(127), 1u128 << 127);
}

#[test]
fn test_bit_scans() {
    let x: u64 = 0b1010_0000;
    assert_eq!(<u64 as Unsigned>::count_ones(x), 2);
    assert_eq!(<u64 as Unsigned>::first_one(x), Some(5));
    assert_eq!(<u64 as Unsigned>::last_one(x), Some(7));
    assert_eq!(<u64 as Unsigned>::first_one(0), None);
    assert_eq!(<u64 as Unsigned>::last_one(0), None);
    let y: u128 = (1u128 << 127) | 1;
    assert_eq!(<u128 as Unsigned>::first_one(y), Some(0));
    assert_eq!(<u128 as Unsigned>::last_one(y), Some(127));
    assert_eq!(<u128 as Unsigned>::count_ones(y), 2);
}

#[test]
fn test_zero_width_store() {
    assert_eq!(core::mem::size_of::<u0>(), 0);
    assert_eq!(<u0 as Unsigned>::bits(), 0);
    assert_eq!(<u0 as Unsigned>::to_usize(u0), 0);
    assert_eq!(<u0 as Unsigned>::count_ones(u0), 0);
    assert_eq!(<u0 as Unsigned>::first_one(u0), None);
    assert_eq!(<u0 as Unsigned>::last_one(u0), None);
}
