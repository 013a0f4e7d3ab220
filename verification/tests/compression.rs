use cantor::Finite;
use cantor::compress::{Compress, compress};
use cantor::map::ArrayMap;
use cantor::sample::{MyType, Tile};
use cantor::set::{BitmapSet, SetOps};
use cantor::uint::log2;
use core::mem::size_of_val;

#[test]
fn test_compress_zst() {
    assert_eq!(core::mem::size_of::<()>(), 0);
}

#[test]
fn test_roundtrip_mytype() {
    for i in 0..MyType::count() {
        let v = MyType::nth(i).unwrap();
        let c = compress(v);
        assert_eq!(c.expand(), v);
    }
}

#[test]
fn test_roundtrip_tile() {
    for i in 0..Tile::count() {
        let v = Tile::nth(i).unwrap();
        let c = compress(v);
        assert_eq!(c.expand(), v);
        assert!(size_of_val(&c) <= size_of_val(&v));
    }
}

#[test]
fn test_log2() {
    // Rounded-up base-2 logarithm, with zero bits needed when at most one
    // value exists.
    assert_eq!(log2(0), 0);
    assert_eq!(log2(1), 0);
    assert_eq!(log2(2), 1);
    assert_eq!(log2(3), 2);
    assert_eq!(log2(4), 2);
    assert_eq!(log2(5), 3);
    assert_eq!(log2(7), 3);
    assert_eq!(log2(8), 3);
    assert_eq!(log2(9), 4);
    assert_eq!(log2(255), 8);
    assert_eq!(log2(256), 8);
    assert_eq!(log2(257), 9);
    assert_eq!(log2(usize::MAX), 64);
}

#[test]
fn test_seven_values_fit_three_bits() {
    // A 7-valued domain needs 3 bits for its indices; the registry backs
    // counts up to 8 with 3 bits, in a single byte.
    assert_eq!(log2(MyType::count()), 3);
    assert_eq!(log2(8), 3);
    assert_eq!(core::mem::size_of::<Compress<MyType>>(), 1);
}

#[test]
fn test_compressed_is_finite() {
    assert_eq!(<Compress<MyType>>::count(), MyType::count());
    for i in 0..MyType::count() {
        let c = <Compress<MyType>>::nth(i).unwrap();
        assert_eq!(<Compress<MyType>>::index_of(c), i);
        assert_eq!(c.expand(), MyType::nth(i).unwrap());
    }
    assert!(<Compress<MyType>>::nth(7).is_none());
}

#[test]
fn main() {
    // Value iteration
    let mut num_values = 0;
    let mut i = 0;
    while MyType::nth(i).is_some() {
        num_values += 1;
        i += 1;
    }
    assert_eq!(num_values, 7);

    // Value compression
    let value = MyType::B(false);
    assert_eq!(size_of_val(&value), 2);
    let compressed = compress(value);
    assert_eq!(size_of_val(&compressed), 1);
    assert_eq!(value, compressed.expand());

    // Array map
    let mut map = ArrayMap::new(|_: MyType| 0);
    map.set(MyType::B(true), 1);
    map.set(MyType::C(true, true), 2);
    assert_eq!(*map.get(MyType::A), 0);
    assert_eq!(*map.get(MyType::B(true)), 1);
    assert_eq!(*map.get(MyType::C(true, true)), 2);

    // Bitmap set
    let mut set = BitmapSet::none();
    set.insert(MyType::A);
    set.insert(MyType::B(false));
    set.insert(MyType::C(true, false));
    assert_eq!(set.size(), 3);
    assert!(set.contains(MyType::B(false)));
    assert!(!set.contains(MyType::C(false, true)));
}

#[test]
fn test_roundtrip_primitives() {
    assert_eq!(compress(()).expand(), ());
    assert_eq!(compress(false).expand(), false);
    assert_eq!(compress(true).expand(), true);
    assert_eq!(compress(200u8).expand(), 200u8);
    assert_eq!(compress(54321u16).expand(), 54321u16);
    assert_eq!(core::mem::size_of::<Compress<()>>(), 0);
}

#[test]
fn test_compressed_order() {
    let a = compress(MyType::A);
    let b = compress(MyType::B(false));
    assert!(a.lt(&b));
    assert!(!b.lt(&a));
    assert!(a.equals(&compress(MyType::A)));
    assert!(!a.equals(&b));
}
