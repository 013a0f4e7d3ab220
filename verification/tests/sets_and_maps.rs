use cantor::Finite;
use cantor::compress::compress;
use cantor::map::ArrayMap;
use cantor::sample::{Color, MyType, Tile};
use cantor::set::{BitmapSet, SetOps};

#[test]
fn test_bool_set_iteration() {
    let mut set: BitmapSet<bool> = BitmapSet::none();
    set.insert(false);
    set.insert(true);
    assert_eq!(set.size(), 2);

    // Ascending: lowest index first.
    let mut forward = set;
    assert_eq!(forward.next(), Some(false));
    assert_eq!(forward.next(), Some(true));
    assert_eq!(forward.next(), None);

    // Descending: highest index first. The original binding is unchanged.
    let mut backward = set;
    assert_eq!(backward.next_back(), Some(true));
    assert_eq!(backward.next_back(), Some(false));
    assert_eq!(backward.next_back(), None);
    assert_eq!(set.size(), 2);
}

#[test]
fn test_set_constructors() {
    let all: BitmapSet<Color> = BitmapSet::all();
    assert_eq!(all.size(), 3);
    assert!(all.contains(Color::Green));

    let none: BitmapSet<Color> = BitmapSet::none();
    assert_eq!(none.size(), 0);
    assert!(none.is_none());
    assert!(!none.contains(Color::Green));

    let only: BitmapSet<Color> = BitmapSet::only(Color::Blue);
    assert_eq!(only.size(), 1);
    assert!(only.contains(Color::Blue));
    assert!(!only.contains(Color::Red));

    let chosen: BitmapSet<Color> = BitmapSet::new(|c: Color| c != Color::Green);
    assert_eq!(chosen.size(), 2);
    assert!(chosen.contains(Color::Red));
    assert!(!chosen.contains(Color::Green));
    assert!(chosen.contains(Color::Blue));
}

#[test]
fn test_set_algebra() {
    let a: BitmapSet<MyType> = BitmapSet::new(|v: MyType| MyType::index_of(v) % 2 == 0);
    let b: BitmapSet<MyType> = BitmapSet::new(|v: MyType| MyType::index_of(v) < 4);

    // (A and B) or (A xor B) == A or B
    let left = a.and(b).or(a.xor(b));
    assert!(left.equals(&a.or(b)));

    // A - B == A and (not B), with the complement taken within the domain.
    let not_b = BitmapSet::all().difference(b);
    assert!(a.difference(b).equals(&a.and(not_b)));

    // size(A or B) + size(A and B) == size(A) + size(B)
    assert_eq!(
        a.or(b).size() + a.and(b).size(),
        a.size() + b.size()
    );
}

#[test]
fn test_set_exclude_and_order() {
    let mut set: BitmapSet<Color> = BitmapSet::all();
    set.exclude(Color::Green);
    assert_eq!(set.size(), 2);
    assert!(!set.contains(Color::Green));

    let smaller: BitmapSet<Color> = BitmapSet::none();
    assert!(smaller.lt(&set));
    assert!(!set.lt(&smaller));
    assert!(!set.equals(&smaller));
}

#[test]
fn test_set_compressed_keys() {
    let mut set: BitmapSet<Color> = BitmapSet::none();
    set.insert(compress(Color::Red));
    assert!(set.contains(Color::Red));
    assert!(set.contains(compress(Color::Red)));
    assert!(!set.contains(compress(Color::Blue)));
    set.exclude(compress(Color::Red));
    assert!(set.is_none());
}

#[test]
fn test_set_is_finite() {
    // A set over bool is itself finite, with one index per bit pattern.
    assert_eq!(<BitmapSet<bool>>::count(), 4);
    let mut set: BitmapSet<bool> = BitmapSet::none();
    set.insert(false);
    set.insert(true);
    assert_eq!(<BitmapSet<bool>>::index_of(set), 3);
    let third = <BitmapSet<bool>>::nth(2).unwrap();
    assert!(!third.contains(false));
    assert!(third.contains(true));
    assert!(<BitmapSet<bool>>::nth(4).is_none());
}

#[test]
fn test_map_with_key() {
    let map = ArrayMap::new(|x: bool| if x { 1 } else { 0 });
    let map = map.map_with_key(|k: bool, v: &i32| if k { *v * 2 } else { *v + 5 });
    assert_eq!(*map.get(false), 5);
    assert_eq!(*map.get(true), 2);
}

#[test]
fn test_map_values() {
    let map = ArrayMap::new(|c: Color| Color::index_of(c));
    let map = map.map(|v: &usize| *v + 10);
    assert_eq!(*map.get(Color::Red), 10);
    assert_eq!(*map.get(Color::Green), 11);
    assert_eq!(*map.get(Color::Blue), 12);
}

#[test]
fn test_bool_map_overwrite() {
    let mut map = ArrayMap::new(|_: bool| 7);
    map.set(true, 9);
    assert_eq!(*map.get(false), 7);
    assert_eq!(*map.get(true), 9);
}

#[test]
fn test_map_from_and_compressed_keys() {
    let mut map: ArrayMap<bool, i32> = ArrayMap::from(vec![1, 3]);
    assert_eq!(*map.get(false), 1);
    assert_eq!(*map.get(true), 3);
    assert_eq!(*map.get_compressed(compress(true)), 3);
    map.set_compressed(compress(false), 5);
    assert_eq!(*map.get(false), 5);
    assert_eq!(*map.get(true), 3);
}

#[test]
fn test_map_over_sample_keys() {
    let map = ArrayMap::new(|t: MyType| MyType::index_of(t) * MyType::index_of(t));
    for i in 0..MyType::count() {
        assert_eq!(*map.get(MyType::nth(i).unwrap()), i * i);
    }
}

#[test]
fn test_tile_set_wide_bitmap() {
    // 25 possible values: the registry backs this set with a 32-bit store.
    let mut all: BitmapSet<Tile> = BitmapSet::all();
    assert_eq!(all.size(), 25);
    assert_eq!(all.next(), Some(Tile::Empty));
    assert_eq!(all.next_back(), Some(Tile::Cross {
        horizontal: Color::Blue,
        vertical: Color::Blue,
        is_horizontal_above: true,
    }));
    assert_eq!(all.size(), 23);
}

#[test]
fn test_default_set_is_empty() {
    let set: BitmapSet<Color> = Default::default();
    assert!(set.is_none());
    assert_eq!(set.size(), 0);
}
