//! Hand-written instances of the bijection for user-defined sums of
//! products, following the composition rules: each variant owns a contiguous
//! sub-range of indices, laid out in declaration order with running offsets,
//! and fields are encoded left-to-right with the first field varying slowest.
//!
//! These types stand in for what a code generator would emit; the proofs
//! hold the hand-written encodings to the bijection's laws.

use crate::Finite;
use crate::compress::CompressFinite;
use crate::set::BitmapFinite;
use vstd::prelude::*;
use vstd::arithmetic::power2::lemma2_to64;

verus! {

/// A three-way enumeration: three unit variants, indexed 0, 1 and 2 in
/// declaration order.
#[derive(Clone, Copy, PartialEq, Eq, Structural, PartialOrd, Ord, Debug)]
pub enum Color {
    Red,
    Green,
    Blue,
}

impl Finite for Color {
    open spec fn wf() -> bool {
        true
    }

    open spec fn spec_count() -> nat {
        3
    }

    open spec fn spec_index_of(self) -> nat {
        match self {
            Color::Red => 0,
            Color::Green => 1,
            Color::Blue => 2,
        }
    }

    open spec fn spec_nth(i: nat) -> Color {
        if i == 0 {
            Color::Red
        } else if i == 1 {
            Color::Green
        } else {
            Color::Blue
        }
    }

    open spec fn spec_before(self, other: Self) -> bool {
        match (self, other) {
            (Color::Red, Color::Green) => true,
            (Color::Red, Color::Blue) => true,
            (Color::Green, Color::Blue) => true,
            _ => false,
        }
    }

    open spec fn valid(self) -> bool {
        true
    }

    proof fn lemma_count_fits() {
    }

    proof fn lemma_index_in_range(v: Self) {
    }

    proof fn lemma_nth_valid(i: nat) {
    }

    proof fn lemma_nth_index_of(i: nat) {
    }

    proof fn lemma_index_of_nth(v: Self) {
    }

    proof fn lemma_order_iso(a: Self, b: Self) {
    }

    fn count() -> usize {
        3
    }

    fn index_of(value: Self) -> usize {
        match value {
            Color::Red => 0,
            Color::Green => 1,
            Color::Blue => 2,
        }
    }

    fn nth(index: usize) -> Option<Color> {
        match index {
            0 => Some(Color::Red),
            1 => Some(Color::Green),
            2 => Some(Color::Blue),
            _ => None,
        }
    }
}

impl CompressFinite for Color {
    type Index = crate::uint::Uint<2>;

    proof fn lemma_index_fits() {
        lemma2_to64();
        reveal_with_fuel(crate::uint::spec_bit_len, 17);
    }
}

impl BitmapFinite for Color {
    type Bitmap = crate::uint::Uint<3>;

    proof fn lemma_bitmap_fits() {
    }
}

/// A sum of products over [`Color`] and `bool`: a unit variant, two
/// one-field variants and a three-field variant, with counts
/// `1 + 3 + 3 + 3 * 3 * 2 = 25`. Its sub-ranges start at the running offsets
/// 0, 1, 4 and 7.
#[derive(Clone, Copy, PartialEq, Eq, Structural, PartialOrd, Ord, Debug)]
pub enum Tile {
    Empty,
    Horizontal(Color),
    Vertical(Color),
    Cross { horizontal: Color, vertical: Color, is_horizontal_above: bool },
}

impl Finite for Tile {
    open spec fn wf() -> bool {
        true
    }

    open spec fn spec_count() -> nat {
        25
    }

    open spec fn spec_index_of(self) -> nat {
        match self {
            Tile::Empty => 0,
            Tile::Horizontal(c) => 1 + c.spec_index_of(),
            Tile::Vertical(c) => 4 + c.spec_index_of(),
            Tile::Cross { horizontal, vertical, is_horizontal_above } => 7
                + horizontal.spec_index_of() * 6 + vertical.spec_index_of() * 2 + (
            if is_horizontal_above {
                1nat
            } else {
                0nat
            }),
        }
    }

    open spec fn spec_nth(i: nat) -> Tile {
        if i == 0 {
            Tile::Empty
        } else if i < 4 {
            Tile::Horizontal(Color::spec_nth((i - 1) as nat))
        } else if i < 7 {
            Tile::Vertical(Color::spec_nth((i - 4) as nat))
        } else {
            Tile::Cross {
                horizontal: Color::spec_nth(((i - 7) as nat) / 6),
                vertical: Color::spec_nth((((i - 7) as nat) % 6) / 2),
                is_horizontal_above: ((i - 7) as nat) % 2 == 1,
            }
        }
    }

    open spec fn spec_before(self, other: Self) -> bool {
        match (self, other) {
            (Tile::Empty, Tile::Empty) => false,
            (Tile::Empty, _) => true,
            (Tile::Horizontal(a), Tile::Horizontal(b)) => a.spec_before(b),
            (Tile::Horizontal(_), Tile::Vertical(_)) => true,
            (Tile::Horizontal(_), Tile::Cross { .. }) => true,
            (Tile::Vertical(a), Tile::Vertical(b)) => a.spec_before(b),
            (Tile::Vertical(_), Tile::Cross { .. }) => true,
            (
                Tile::Cross { horizontal: h1, vertical: v1, is_horizontal_above: a1 },
                Tile::Cross { horizontal: h2, vertical: v2, is_horizontal_above: a2 },
            ) => h1.spec_before(h2) || (h1 == h2 && (v1.spec_before(v2) || (v1 == v2 && !a1
                && a2))),
            _ => false,
        }
    }

    open spec fn valid(self) -> bool {
        true
    }

    proof fn lemma_count_fits() {
    }

    proof fn lemma_index_in_range(v: Self) {
    }

    proof fn lemma_nth_valid(i: nat) {
    }

    proof fn lemma_nth_index_of(i: nat) {
        if i >= 7 {
            let j = (i - 7) as nat;
            assert(Tile::spec_nth(i).spec_index_of() == i) by (nonlinear_arith)
                requires
                    j == (i - 7) as nat,
                    7 <= i < 25,
                    Tile::spec_nth(i) == (Tile::Cross {
                        horizontal: Color::spec_nth(j / 6),
                        vertical: Color::spec_nth((j % 6) / 2),
                        is_horizontal_above: j % 2 == 1,
                    }),
            ;
        }
    }

    proof fn lemma_index_of_nth(v: Self) {
    }

    proof fn lemma_order_iso(a: Self, b: Self) {
    }

    fn count() -> usize {
        25
    }

    fn index_of(value: Self) -> usize {
        match value {
            Tile::Empty => 0,
            Tile::Horizontal(c) => 1 + Color::index_of(c),
            Tile::Vertical(c) => 4 + Color::index_of(c),
            Tile::Cross { horizontal, vertical, is_horizontal_above } => 7 + Color::index_of(
                horizontal,
            ) * 6 + Color::index_of(vertical) * 2 + if is_horizontal_above {
                1
            } else {
                0
            },
        }
    }

    fn nth(index: usize) -> Option<Tile> {
        if index == 0 {
            Some(Tile::Empty)
        } else if index < 4 {
            Some(Tile::Horizontal(Color::nth(index - 1).unwrap()))
        } else if index < 7 {
            Some(Tile::Vertical(Color::nth(index - 4).unwrap()))
        } else if index < 25 {
            let j = index - 7;
            Some(
                Tile::Cross {
                    horizontal: Color::nth(j / 6).unwrap(),
                    vertical: Color::nth((j % 6) / 2).unwrap(),
                    is_horizontal_above: j % 2 == 1,
                },
            )
        } else {
            None
        }
    }
}

impl CompressFinite for Tile {
    type Index = crate::uint::Uint<5>;

    proof fn lemma_index_fits() {
        lemma2_to64();
        reveal_with_fuel(crate::uint::spec_bit_len, 17);
    }
}

impl BitmapFinite for Tile {
    type Bitmap = crate::uint::Uint<25>;

    proof fn lemma_bitmap_fits() {
    }
}

/// A small sum of products over `bool`: counts `1 + 2 + 2 * 2 = 7`, with
/// sub-ranges starting at the running offsets 0, 1 and 3.
#[derive(Clone, Copy, PartialEq, Eq, Structural, PartialOrd, Ord, Debug)]
pub enum MyType {
    A,
    B(bool),
    C(bool, bool),
}

impl Finite for MyType {
    open spec fn wf() -> bool {
        true
    }

    open spec fn spec_count() -> nat {
        7
    }

    open spec fn spec_index_of(self) -> nat {
        match self {
            MyType::A => 0,
            MyType::B(b) => 1 + b.spec_index_of(),
            MyType::C(b0, b1) => 3 + b0.spec_index_of() * 2 + b1.spec_index_of(),
        }
    }

    open spec fn spec_nth(i: nat) -> MyType {
        if i == 0 {
            MyType::A
        } else if i < 3 {
            MyType::B(i == 2)
        } else {
            MyType::C((i - 3) as nat / 2 == 1, (i - 3) as nat % 2 == 1)
        }
    }

    open spec fn spec_before(self, other: Self) -> bool {
        match (self, other) {
            (MyType::A, MyType::A) => false,
            (MyType::A, _) => true,
            (MyType::B(a), MyType::B(b)) => a.spec_before(b),
            (MyType::B(_), MyType::C(_, _)) => true,
            (MyType::C(a0, a1), MyType::C(b0, b1)) => a0.spec_before(b0) || (a0 == b0
                && a1.spec_before(b1)),
            _ => false,
        }
    }

    open spec fn valid(self) -> bool {
        true
    }

    proof fn lemma_count_fits() {
    }

    proof fn lemma_index_in_range(v: Self) {
    }

    proof fn lemma_nth_valid(i: nat) {
    }

    proof fn lemma_nth_index_of(i: nat) {
    }

    proof fn lemma_index_of_nth(v: Self) {
    }

    proof fn lemma_order_iso(a: Self, b: Self) {
    }

    fn count() -> usize {
        7
    }

    fn index_of(value: Self) -> usize {
        match value {
            MyType::A => 0,
            MyType::B(b) => 1 + bool::index_of(b),
            MyType::C(b0, b1) => 3 + bool::index_of(b0) * 2 + bool::index_of(b1),
        }
    }

    fn nth(index: usize) -> Option<MyType> {
        if index == 0 {
            Some(MyType::A)
        } else if index < 3 {
            Some(MyType::B(index == 2))
        } else if index < 7 {
            let j = index - 3;
            Some(MyType::C(j / 2 == 1, j % 2 == 1))
        } else {
            None
        }
    }
}

impl CompressFinite for MyType {
    type Index = crate::uint::Uint<3>;

    proof fn lemma_index_fits() {
        lemma2_to64();
        reveal_with_fuel(crate::uint::spec_bit_len, 17);
    }
}

impl BitmapFinite for MyType {
    type Bitmap = crate::uint::Uint<7>;

    proof fn lemma_bitmap_fits() {
    }
}

} // verus!
