use cantor::Finite;
use cantor::sample::{Color, MyType, Tile};

/// Checks that the integer mapping of the given type is a bijection of the
/// expected size, order-preserving, and absent beyond its bound.
fn validate<F: Finite + Copy + PartialOrd>(expected: usize) {
    assert_eq!(expected, F::count());
    for i in 0..F::count() {
        assert_eq!(i, F::index_of(F::nth(i).unwrap()));
    }
    for i in 0..(F::count() - 1) {
        assert!(F::nth(i).unwrap() < F::nth(i + 1).unwrap());
    }
    assert!(F::nth(expected).is_none());
    assert!(F::nth(expected + 1).is_none());
}

#[test]
fn test_color() {
    validate::<Color>(3);
    validate::<Option<Color>>(4);
    validate::<(Color, Color)>(9);
}

#[test]
fn test_tile() {
    validate::<Tile>(1 + 3 + 3 + 3 * 3 * 2);
}

#[test]
fn test_primitives() {
    validate::<()>(1);
    validate::<bool>(2);
    validate::<u8>(256);
    validate::<u16>(65536);
    assert_eq!(bool::index_of(false), 0);
    assert_eq!(bool::index_of(true), 1);
}

#[test]
fn test_color_indices_in_declaration_order() {
    assert_eq!(Color::index_of(Color::Red), 0);
    assert_eq!(Color::index_of(Color::Green), 1);
    assert_eq!(Color::index_of(Color::Blue), 2);
}

#[test]
fn test_option_indices() {
    assert_eq!(<Option<Color>>::count(), 4);
    assert_eq!(<Option<Color>>::index_of(None), 0);
    assert_eq!(<Option<Color>>::index_of(Some(Color::Red)), 1);
    assert_eq!(<Option<Color>>::index_of(Some(Color::Green)), 2);
    assert_eq!(<Option<Color>>::index_of(Some(Color::Blue)), 3);
    assert_eq!(<Option<Color>>::nth(0), Some(None));
    assert_eq!(<Option<Color>>::nth(2), Some(Some(Color::Green)));
}

#[test]
fn test_pair_formula() {
    // Row-major: the first component varies slowest.
    for a in 0..3 {
        for b in 0..3 {
            let pair = (Color::nth(a).unwrap(), Color::nth(b).unwrap());
            assert_eq!(<(Color, Color)>::index_of(pair), a * 3 + b);
        }
    }
    assert_eq!(
        <(Color, Color)>::nth(5),
        Some((Color::Green, Color::Blue))
    );
}

#[test]
fn test_tile_subranges() {
    // Running offsets: Empty at 0, Horizontal at 1..4, Vertical at 4..7,
    // Cross at 7..25 with radix factors 6, 2 and 1.
    assert_eq!(Tile::index_of(Tile::Empty), 0);
    assert_eq!(Tile::index_of(Tile::Horizontal(Color::Red)), 1);
    assert_eq!(Tile::index_of(Tile::Vertical(Color::Red)), 4);
    assert_eq!(
        Tile::index_of(Tile::Cross {
            horizontal: Color::Red,
            vertical: Color::Red,
            is_horizontal_above: false,
        }),
        7
    );
    assert_eq!(
        Tile::index_of(Tile::Cross {
            horizontal: Color::Blue,
            vertical: Color::Blue,
            is_horizontal_above: true,
        }),
        24
    );
    assert_eq!(
        Tile::nth(7 + 6 + 2 + 1),
        Some(Tile::Cross {
            horizontal: Color::Green,
            vertical: Color::Green,
            is_horizontal_above: true,
        })
    );
}

#[test]
fn test_mytype_indices() {
    assert_eq!(MyType::count(), 7);
    assert_eq!(MyType::index_of(MyType::B(false)), 1);
    assert_eq!(MyType::nth(4), Some(MyType::C(false, true)));
}

#[test]
fn test_boundary_absence() {
    assert!(Color::nth(3).is_none());
    assert!(Color::nth(usize::MAX).is_none());
    assert!(Tile::nth(25).is_none());
    assert!(MyType::nth(7).is_none());
}
