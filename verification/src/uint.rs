//! Unsigned backing stores of graded widths, and the registry that picks the
//! narrowest one for a required bit count.
//!
//! Values of the backing stores are modelled as natural numbers; bit-level
//! behaviour is stated over [`bit_of`], the binary digits of that model.

use vstd::prelude::*;
use vstd::arithmetic::power2::*;
use vstd::arithmetic::div_mod::*;

verus! {

/// Digit `i` of the binary expansion of `x`.
pub open spec fn bit_of(x: nat, i: nat) -> bool {
    x / pow2(i) % 2 == 1
}

/// The number of set digits of `x` at positions below `n`.
pub open spec fn popcount(x: nat, n: nat) -> nat
    decreases n,
{
    if n == 0 {
        0
    } else {
        popcount(x, (n - 1) as nat) + if bit_of(x, (n - 1) as nat) {
            1nat
        } else {
            0nat
        }
    }
}

/// Digits at or above the bound of a bounded number are clear.
pub proof fn lemma_bit_of_high(x: nat, n: nat, i: nat)
    requires
        x < pow2(n),
        n <= i,
    ensures
        !bit_of(x, i),
{
    lemma_pow2_pos(i);
    if n < i {
        lemma_pow2_strictly_increases(n, i);
    }
    lemma_basic_div(x as int, pow2(i) as int);
}

/// A digit survives halving: digit `i` of `x` is digit `i - 1` of `x / 2`.
proof fn lemma_bit_of_div2(x: nat, i: nat)
    requires
        i >= 1,
    ensures
        bit_of(x, i) == bit_of(x / 2, (i - 1) as nat),
{
    lemma_pow2_unfold(i);
    lemma_pow2_pos((i - 1) as nat);
    lemma_div_denominator(x as int, 2, pow2((i - 1) as nat) as int);
}

/// Two bounded numbers with equal digits are equal.
pub proof fn lemma_bits_extensional(a: nat, b: nat, n: nat)
    requires
        a < pow2(n),
        b < pow2(n),
        forall|i: nat| i < n ==> bit_of(a, i) == bit_of(b, i),
    ensures
        a == b,
    decreases n,
{
    if n == 0 {
        assert(pow2(0) == 1) by {
            lemma2_to64();
        }
    } else {
        assert(bit_of(a, 0) == bit_of(b, 0));
        assert(pow2(0) == 1) by {
            lemma2_to64();
        }
        assert(a % 2 == b % 2);
        lemma_pow2_unfold(n);
        lemma_pow2_pos((n - 1) as nat);
        assert(a / 2 < pow2((n - 1) as nat)) by (nonlinear_arith)
            requires
                a < 2 * pow2((n - 1) as nat),
        ;
        assert(b / 2 < pow2((n - 1) as nat)) by (nonlinear_arith)
            requires
                b < 2 * pow2((n - 1) as nat),
        ;
        assert forall|i: nat| i < n - 1 implies #[trigger] bit_of(a / 2, i) == bit_of(b / 2, i) by {
            lemma_bit_of_div2(a, i + 1);
            lemma_bit_of_div2(b, i + 1);
        }
        lemma_bits_extensional(a / 2, b / 2, (n - 1) as nat);
        lemma_fundamental_div_mod(a as int, 2);
        lemma_fundamental_div_mod(b as int, 2);
    }
}

/// The set of positions below `n` holding a set digit of `x`.
pub open spec fn bit_positions(x: nat, n: nat) -> Set<nat> {
    Set::new(|i: nat| i < n && bit_of(x, i))
}

/// The count of set digits below `n` is the cardinality of the set of their
/// positions.
pub proof fn lemma_popcount_is_cardinality(x: nat, n: nat)
    ensures
        bit_positions(x, n).finite(),
        popcount(x, n) == bit_positions(x, n).len(),
    decreases n,
{
    if n == 0 {
        assert(bit_positions(x, 0) =~= Set::<nat>::empty());
    } else {
        lemma_popcount_is_cardinality(x, (n - 1) as nat);
        let prev = bit_positions(x, (n - 1) as nat);
        if bit_of(x, (n - 1) as nat) {
            assert(bit_positions(x, n) =~= prev.insert((n - 1) as nat));
        } else {
            assert(bit_positions(x, n) =~= prev);
        }
    }
}

/// Counting digits further up changes nothing when the further digits are
/// clear.
pub proof fn lemma_popcount_extend(x: nat, n: nat, m: nat)
    requires
        n <= m,
        forall|i: nat| n <= i && i < m ==> !bit_of(x, i),
    ensures
        popcount(x, m) == popcount(x, n),
    decreases m,
{
    if m > n {
        lemma_popcount_extend(x, n, (m - 1) as nat);
    }
}

/// A number whose digits from `n` on up are clear stays below `2^n`.
pub proof fn lemma_clear_high_bound(x: nat, n: nat, m: nat)
    requires
        x < pow2(m),
        n <= m,
        forall|i: nat| n <= i && i < m ==> !bit_of(x, i),
    ensures
        x < pow2(n),
    decreases m - n,
{
    if m > n {
        assert(!bit_of(x, (m - 1) as nat));
        lemma_pow2_unfold(m);
        lemma_pow2_pos((m - 1) as nat);
        let d = pow2((m - 1) as nat);
        assert(x / d < 2) by (nonlinear_arith)
            requires
                x < 2 * d,
                d > 0,
        ;
        assert(x / d % 2 != 1);
        assert(x / d == 0);
        lemma_small_div_converse_wrapper(x, d);
        lemma_clear_high_bound(x, n, (m - 1) as nat);
    }
}

/// A zero quotient bounds the dividend by the divisor.
proof fn lemma_small_div_converse_wrapper(x: nat, d: nat)
    requires
        d > 0,
        x / d == 0,
    ensures
        x < d,
{
    lemma_fundamental_div_mod(x as int, d as int);
    lemma_mod_bound(x as int, d as int);
}

/// Zero has no set digits.
pub proof fn lemma_bit_of_zero(i: nat)
    ensures
        !bit_of(0, i),
{
    lemma_pow2_pos(i);
    lemma_basic_div(0, pow2(i) as int);
}

/// A number bounded by its width whose digits are all clear is zero.
pub proof fn lemma_all_clear_is_zero(x: nat, n: nat)
    requires
        x < pow2(n),
        forall|i: nat| i < n ==> !bit_of(x, i),
    ensures
        x == 0,
{
    lemma_pow2_pos(n);
    assert forall|i: nat| i < n implies bit_of(x, i) == bit_of(0, i) by {
        lemma_bit_of_zero(i);
    }
    lemma_bits_extensional(x, 0, n);
}

/// The operations of an unsigned backing store, stated over the store's
/// natural-number model and the binary digits of that model. A store of
/// width `w` holds exactly the numbers below `2^w`.
pub trait Unsigned: Sized + Copy {
    /// The width of this store, in bits.
    spec fn spec_bits() -> nat;

    /// The stored number.
    spec fn as_nat(self) -> nat;

    /// The stored number is bounded by the width.
    proof fn lemma_as_nat_bound(self)
        ensures
            self.as_nat() < pow2(Self::spec_bits()),
    ;

    /// The model determines the value: equal numbers are equal stores.
    proof fn lemma_as_nat_injective(self, other: Self)
        ensures
            self.as_nat() == other.as_nat() ==> self == other,
    ;

    /// The store holding a given number, at the specification level.
    spec fn spec_from_nat(n: nat) -> Self;

    /// Within the width, storing a number keeps it.
    proof fn lemma_spec_from_nat(n: nat)
        requires
            n < pow2(Self::spec_bits()),
        ensures
            Self::spec_from_nat(n).as_nat() == n,
    ;

    /// The width of this store, in bits.
    fn bits() -> (n: usize)
        ensures
            n == Self::spec_bits(),
    ;

    /// The store holding zero.
    fn zero() -> (r: Self)
        ensures
            r.as_nat() == 0,
    ;

    /// Stores a number known to fit the width.
    fn from_usize_unchecked(source: usize) -> (r: Self)
        requires
            (source as nat) < pow2(Self::spec_bits()),
        ensures
            r.as_nat() == source,
    ;

    /// Reads the stored number back out.
    fn to_usize(self) -> (r: usize)
        requires
            self.as_nat() <= usize::MAX,
        ensures
            r == self.as_nat(),
    ;

    /// The store whose low `n` bits are set and whose other bits are clear.
    fn ones(n: usize) -> (r: Self)
        requires
            n <= Self::spec_bits(),
        ensures
            forall|i: nat| i < Self::spec_bits() ==> #[trigger] bit_of(r.as_nat(), i) == (i < n),
    ;

    /// The store whose bit `i` alone is set.
    fn one_at(i: usize) -> (r: Self)
        requires
            i < Self::spec_bits(),
        ensures
            forall|j: nat| j < Self::spec_bits() ==> #[trigger] bit_of(r.as_nat(), j) == (j == i),
    ;

    /// Tests bit `i`.
    fn bit_at(self, i: usize) -> (b: bool)
        requires
            i < Self::spec_bits(),
        ensures
            b == bit_of(self.as_nat(), i as nat),
    ;

    /// Bitwise disjunction.
    fn bitor(self, other: Self) -> (r: Self)
        ensures
            forall|i: nat|
                i < Self::spec_bits() ==> #[trigger] bit_of(r.as_nat(), i) == (bit_of(
                    self.as_nat(),
                    i,
                ) || bit_of(other.as_nat(), i)),
    ;

    /// Bitwise conjunction.
    fn bitand(self, other: Self) -> (r: Self)
        ensures
            forall|i: nat|
                i < Self::spec_bits() ==> #[trigger] bit_of(r.as_nat(), i) == (bit_of(
                    self.as_nat(),
                    i,
                ) && bit_of(other.as_nat(), i)),
    ;

    /// Bitwise exclusive disjunction.
    fn bitxor(self, other: Self) -> (r: Self)
        ensures
            forall|i: nat|
                i < Self::spec_bits() ==> #[trigger] bit_of(r.as_nat(), i) == (bit_of(
                    self.as_nat(),
                    i,
                ) != bit_of(other.as_nat(), i)),
    ;

    /// Bitwise complement, within the width.
    fn complement(self) -> (r: Self)
        ensures
            forall|i: nat|
                i < Self::spec_bits() ==> #[trigger] bit_of(r.as_nat(), i) == !bit_of(
                    self.as_nat(),
                    i,
                ),
    ;

    /// Equality of the stored numbers.
    fn equals(self, other: Self) -> (r: bool)
        ensures
            r == (self.as_nat() == other.as_nat()),
    ;

    /// Strict order of the stored numbers.
    fn lt(self, other: Self) -> (r: bool)
        ensures
            r == (self.as_nat() < other.as_nat()),
    ;

    /// The number of set bits.
    fn count_ones(self) -> (r: usize)
        ensures
            r == popcount(self.as_nat(), Self::spec_bits()),
    {
        let w = Self::bits();
        let mut n: usize = 0;
        let mut i: usize = 0;
        while i < w
            invariant
                i <= w,
                w == Self::spec_bits(),
                n == popcount(self.as_nat(), i as nat),
                n <= i,
            decreases w - i,
        {
            if self.bit_at(i) {
                n = n + 1;
            }
            i = i + 1;
        }
        n
    }

    /// The position of the lowest set bit, or `None` on a zero store.
    fn first_one(self) -> (r: Option<usize>)
        ensures
            match r {
                Some(i) => i < Self::spec_bits() && bit_of(self.as_nat(), i as nat) && (forall|
                    j: nat,
                |
                    j < i ==> !bit_of(self.as_nat(), j)),
                None => self.as_nat() == 0,
            },
    {
        let w = Self::bits();
        let mut i: usize = 0;
        while i < w
            invariant
                i <= w,
                w == Self::spec_bits(),
                forall|j: nat| j < i ==> !bit_of(self.as_nat(), j),
            decreases w - i,
        {
            if self.bit_at(i) {
                return Some(i);
            }
            i = i + 1;
        }
        proof {
            self.lemma_as_nat_bound();
            lemma_all_clear_is_zero(self.as_nat(), Self::spec_bits());
        }
        None
    }

    /// The position of the highest set bit, or `None` on a zero store.
    fn last_one(self) -> (r: Option<usize>)
        ensures
            match r {
                Some(i) => i < Self::spec_bits() && bit_of(self.as_nat(), i as nat) && (forall|
                    j: nat,
                |
                    i < j && j < Self::spec_bits() ==> !bit_of(self.as_nat(), j)),
                None => self.as_nat() == 0,
            },
    {
        let w = Self::bits();
        let mut i: usize = w;
        while i > 0
            invariant
                i <= w,
                w == Self::spec_bits(),
                forall|j: nat| i <= j && j < Self::spec_bits() ==> !bit_of(self.as_nat(), j),
            decreases i,
        {
            i = i - 1;
            if self.bit_at(i) {
                return Some(i);
            }
        }
        proof {
            self.lemma_as_nat_bound();
            lemma_all_clear_is_zero(self.as_nat(), Self::spec_bits());
        }
        None
    }
}

/// A zero-width store: the degenerate backing for a domain with one value.
#[allow(non_camel_case_types)]
#[derive(PartialEq, Eq, Structural, Clone, Copy)]
pub struct u0;

impl Unsigned for u0 {
    open spec fn spec_bits() -> nat {
        0
    }

    open spec fn as_nat(self) -> nat {
        0
    }

    proof fn lemma_as_nat_bound(self) {
        lemma2_to64();
    }

    proof fn lemma_as_nat_injective(self, other: Self) {
    }

    open spec fn spec_from_nat(n: nat) -> Self {
        u0
    }

    proof fn lemma_spec_from_nat(n: nat) {
        lemma2_to64();
    }

    fn bits() -> usize {
        0
    }

    fn zero() -> Self {
        u0
    }

    fn from_usize_unchecked(source: usize) -> Self {
        proof {
            lemma2_to64();
        }
        u0
    }

    fn to_usize(self) -> usize {
        0
    }

    fn ones(n: usize) -> Self {
        u0
    }

    fn one_at(i: usize) -> Self {
        u0
    }

    fn bit_at(self, i: usize) -> bool {
        false
    }

    fn bitor(self, other: Self) -> Self {
        u0
    }

    fn bitand(self, other: Self) -> Self {
        u0
    }

    fn bitxor(self, other: Self) -> Self {
        u0
    }

    fn complement(self) -> Self {
        u0
    }

    fn equals(self, other: Self) -> bool {
        true
    }

    fn lt(self, other: Self) -> bool {
        false
    }
}

/// Digit `i` of a `u8`'s model is its machine bit `i`.
proof fn lemma_u8_bit(x: u8, i: u8)
    requires
        i < 8,
    ensures
        ((x >> i) & 1 == 1) == bit_of(x as nat, i as nat),
{
    vstd::bits::lemma_u8_shr_is_div(x, i);
    assert((x >> i) & 1 == (x >> i) % 2) by (bit_vector);
}

/// The four bitwise connectives act digit by digit on a `u8`'s model.
proof fn lemma_u8_bitops(a: u8, b: u8)
    ensures
        forall|i: nat|
            i < 8 ==> #[trigger] bit_of((a | b) as nat, i) == (bit_of(a as nat, i) || bit_of(
                b as nat,
                i,
            )),
        forall|i: nat|
            i < 8 ==> #[trigger] bit_of((a & b) as nat, i) == (bit_of(a as nat, i) && bit_of(
                b as nat,
                i,
            )),
        forall|i: nat|
            i < 8 ==> #[trigger] bit_of((a ^ b) as nat, i) == (bit_of(a as nat, i) != bit_of(
                b as nat,
                i,
            )),
        forall|i: nat| i < 8 ==> #[trigger] bit_of((!a) as nat, i) == !bit_of(a as nat, i),
{
    assert forall|i: nat|
        #![trigger bit_of((a | b) as nat, i)]
        #![trigger bit_of((a & b) as nat, i)]
        #![trigger bit_of((a ^ b) as nat, i)]
        #![trigger bit_of((!a) as nat, i)]
        i < 8 implies (bit_of((a | b) as nat, i) == (bit_of(a as nat, i) || bit_of(b as nat, i)))
        && (bit_of((a & b) as nat, i) == (bit_of(a as nat, i) && bit_of(b as nat, i))) && (bit_of(
        (a ^ b) as nat,
        i,
    ) == (bit_of(a as nat, i) != bit_of(b as nat, i))) && (bit_of((!a) as nat, i) == !bit_of(
        a as nat,
        i,
    )) by {
        let j = i as u8;
        lemma_u8_bit(a, j);
        lemma_u8_bit(b, j);
        lemma_u8_bit(a | b, j);
        lemma_u8_bit(a & b, j);
        lemma_u8_bit(a ^ b, j);
        lemma_u8_bit(!a, j);
        assert(((((a | b) >> j) & 1 == 1) == (((a >> j) & 1 == 1) || ((b >> j) & 1 == 1)))
            && ((((a & b) >> j) & 1 == 1) == (((a >> j) & 1 == 1) && ((b >> j) & 1 == 1))) && ((((a
            ^ b) >> j) & 1 == 1) == (((a >> j) & 1 == 1) != ((b >> j) & 1 == 1))) && ((((!a) >> j)
            & 1 == 1) == !((a >> j) & 1 == 1))) by (bit_vector)
            requires
                j < 8,
        ;
    }
}

/// The low-mask construction sets exactly the bits below `n` of a `u8`.
proof fn lemma_u8_ones(n: u8, r: u8)
    by (bit_vector)
    requires
        n <= 8,
        r == if n == 0 {
            0u8
        } else {
            0xffu8 >> ((8 - n) as u8)
        },
    ensures
        forall|j: u8| j < 8 ==> (((r >> j) & 1 == 1) == (j < n)),
{
}

/// The single-bit construction sets exactly bit `i` of a `u8`.
proof fn lemma_u8_one_at(i: u8, r: u8)
    by (bit_vector)
    requires
        i < 8,
        r == (1u8 << i),
    ensures
        forall|j: u8| j < 8 ==> (((r >> j) & 1 == 1) == (j == i)),
{
}

impl Unsigned for u8 {
    open spec fn spec_bits() -> nat {
        8
    }

    open spec fn as_nat(self) -> nat {
        self as nat
    }

    proof fn lemma_as_nat_bound(self) {
        lemma2_to64();
    }

    proof fn lemma_as_nat_injective(self, other: Self) {
    }

    open spec fn spec_from_nat(n: nat) -> Self {
        n as u8
    }

    proof fn lemma_spec_from_nat(n: nat) {
        lemma2_to64();
        lemma2_to64_rest();
        lemma_pow2_adds(64, 64);
    }

    fn bits() -> usize {
        8
    }

    fn zero() -> Self {
        0
    }

    fn from_usize_unchecked(source: usize) -> Self {
        proof {
            lemma2_to64();
        }
        source as u8
    }

    fn to_usize(self) -> usize {
        self as usize
    }

    fn ones(n: usize) -> (r: Self) {
        let r: u8 = if n == 0 {
            0
        } else {
            0xffu8 >> ((8 - n) as u8)
        };
        proof {
            lemma_u8_ones(n as u8, r);
            assert forall|i: nat| i < 8 implies #[trigger] bit_of(r as nat, i) == (i < n) by {
                lemma_u8_bit(r, i as u8);
            }
        }
        r
    }

    fn one_at(i: usize) -> (r: Self) {
        let r: u8 = 1u8 << (i as u8);
        proof {
            lemma_u8_one_at(i as u8, r);
            assert forall|j: nat| j < 8 implies #[trigger] bit_of(r as nat, j) == (j == i) by {
                lemma_u8_bit(r, j as u8);
            }
        }
        r
    }

    fn bit_at(self, i: usize) -> (b: bool) {
        proof {
            lemma_u8_bit(self, i as u8);
        }
        (self >> (i as u8)) & 1 == 1
    }

    fn bitor(self, other: Self) -> (r: Self) {
        proof {
            lemma_u8_bitops(self, other);
        }
        self | other
    }

    fn bitand(self, other: Self) -> (r: Self) {
        proof {
            lemma_u8_bitops(self, other);
        }
        self & other
    }

    fn bitxor(self, other: Self) -> (r: Self) {
        proof {
            lemma_u8_bitops(self, other);
        }
        self ^ other
    }

    fn complement(self) -> (r: Self) {
        proof {
            lemma_u8_bitops(self, self);
        }
        !self
    }

    fn equals(self, other: Self) -> bool {
        self == other
    }

    fn lt(self, other: Self) -> bool {
        self < other
    }
}

/// Digit `i` of a `u16`'s model is its machine bit `i`.
proof fn lemma_u16_bit(x: u16, i: u16)
    requires
        i < 16,
    ensures
        ((x >> i) & 1 == 1) == bit_of(x as nat, i as nat),
{
    vstd::bits::lemma_u16_shr_is_div(x, i);
    assert((x >> i) & 1 == (x >> i) % 2) by (bit_vector);
}

/// The four bitwise connectives act digit by digit on a `u16`'s model.
proof fn lemma_u16_bitops(a: u16, b: u16)
    ensures
        forall|i: nat|
            i < 16 ==> #[trigger] bit_of((a | b) as nat, i) == (bit_of(a as nat, i) || bit_of(
                b as nat,
                i,
            )),
        forall|i: nat|
            i < 16 ==> #[trigger] bit_of((a & b) as nat, i) == (bit_of(a as nat, i) && bit_of(
                b as nat,
                i,
            )),
        forall|i: nat|
            i < 16 ==> #[trigger] bit_of((a ^ b) as nat, i) == (bit_of(a as nat, i) != bit_of(
                b as nat,
                i,
            )),
        forall|i: nat| i < 16 ==> #[trigger] bit_of((!a) as nat, i) == !bit_of(a as nat, i),
{
    assert forall|i: nat|
        #![trigger bit_of((a | b) as nat, i)]
        #![trigger bit_of((a & b) as nat, i)]
        #![trigger bit_of((a ^ b) as nat, i)]
        #![trigger bit_of((!a) as nat, i)]
        i < 16 implies (bit_of((a | b) as nat, i) == (bit_of(a as nat, i) || bit_of(b as nat, i)))
        && (bit_of((a & b) as nat, i) == (bit_of(a as nat, i) && bit_of(b as nat, i))) && (bit_of(
        (a ^ b) as nat,
        i,
    ) == (bit_of(a as nat, i) != bit_of(b as nat, i))) && (bit_of((!a) as nat, i) == !bit_of(
        a as nat,
        i,
    )) by {
        let j = i as u16;
        lemma_u16_bit(a, j);
        lemma_u16_bit(b, j);
        lemma_u16_bit(a | b, j);
        lemma_u16_bit(a & b, j);
        lemma_u16_bit(a ^ b, j);
        lemma_u16_bit(!a, j);
        assert(((((a | b) >> j) & 1 == 1) == (((a >> j) & 1 == 1) || ((b >> j) & 1 == 1)))
            && ((((a & b) >> j) & 1 == 1) == (((a >> j) & 1 == 1) && ((b >> j) & 1 == 1))) && ((((a
            ^ b) >> j) & 1 == 1) == (((a >> j) & 1 == 1) != ((b >> j) & 1 == 1))) && ((((!a) >> j)
            & 1 == 1) == !((a >> j) & 1 == 1))) by (bit_vector)
            requires
                j < 16,
        ;
    }
}

/// The low-mask construction sets exactly the bits below `n` of a `u16`.
proof fn lemma_u16_ones(n: u16, r: u16)
    by (bit_vector)
    requires
        n <= 16,
        r == if n == 0 {
            0u16
        } else {
            0xffffu16 >> ((16 - n) as u16)
        },
    ensures
        forall|j: u16| j < 16 ==> (((r >> j) & 1 == 1) == (j < n)),
{
}

/// The single-bit construction sets exactly bit `i` of a `u16`.
proof fn lemma_u16_one_at(i: u16, r: u16)
    by (bit_vector)
    requires
        i < 16,
        r == (1u16 << i),
    ensures
        forall|j: u16| j < 16 ==> (((r >> j) & 1 == 1) == (j == i)),
{
}

impl Unsigned for u16 {
    open spec fn spec_bits() -> nat {
        16
    }

    open spec fn as_nat(self) -> nat {
        self as nat
    }

    proof fn lemma_as_nat_bound(self) {
        lemma2_to64();
    }

    proof fn lemma_as_nat_injective(self, other: Self) {
    }

    open spec fn spec_from_nat(n: nat) -> Self {
        n as u16
    }

    proof fn lemma_spec_from_nat(n: nat) {
        lemma2_to64();
        lemma2_to64_rest();
        lemma_pow2_adds(64, 64);
    }

    fn bits() -> usize {
        16
    }

    fn zero() -> Self {
        0
    }

    fn from_usize_unchecked(source: usize) -> Self {
        proof {
            lemma2_to64();
        }
        source as u16
    }

    fn to_usize(self) -> usize {
        self as usize
    }

    fn ones(n: usize) -> (r: Self) {
        let r: u16 = if n == 0 {
            0
        } else {
            0xffffu16 >> ((16 - n) as u16)
        };
        proof {
            lemma_u16_ones(n as u16, r);
            assert forall|i: nat| i < 16 implies #[trigger] bit_of(r as nat, i) == (i < n) by {
                lemma_u16_bit(r, i as u16);
            }
        }
        r
    }

    fn one_at(i: usize) -> (r: Self) {
        let r: u16 = 1u16 << (i as u16);
        proof {
            lemma_u16_one_at(i as u16, r);
            assert forall|j: nat| j < 16 implies #[trigger] bit_of(r as nat, j) == (j == i) by {
                lemma_u16_bit(r, j as u16);
            }
        }
        r
    }

    fn bit_at(self, i: usize) -> (b: bool) {
        proof {
            lemma_u16_bit(self, i as u16);
        }
        (self >> (i as u16)) & 1 == 1
    }

    fn bitor(self, other: Self) -> (r: Self) {
        proof {
            lemma_u16_bitops(self, other);
        }
        self | other
    }

    fn bitand(self, other: Self) -> (r: Self) {
        proof {
            lemma_u16_bitops(self, other);
        }
        self & other
    }

    fn bitxor(self, other: Self) -> (r: Self) {
        proof {
            lemma_u16_bitops(self, other);
        }
        self ^ other
    }

    fn complement(self) -> (r: Self) {
        proof {
            lemma_u16_bitops(self, self);
        }
        !self
    }

    fn equals(self, other: Self) -> bool {
        self == other
    }

    fn lt(self, other: Self) -> bool {
        self < other
    }
}


/// Digit `i` of a `u32`'s model is its machine bit `i`.
proof fn lemma_u32_bit(x: u32, i: u32)
    requires
        i < 32,
    ensures
        ((x >> i) & 1 == 1) == bit_of(x as nat, i as nat),
{
    vstd::bits::lemma_u32_shr_is_div(x, i);
    assert((x >> i) & 1 == (x >> i) % 2) by (bit_vector);
}

/// The four bitwise connectives act digit by digit on a `u32`'s model.
proof fn lemma_u32_bitops(a: u32, b: u32)
    ensures
        forall|i: nat|
            i < 32 ==> #[trigger] bit_of((a | b) as nat, i) == (bit_of(a as nat, i) || bit_of(
                b as nat,
                i,
            )),
        forall|i: nat|
            i < 32 ==> #[trigger] bit_of((a & b) as nat, i) == (bit_of(a as nat, i) && bit_of(
                b as nat,
                i,
            )),
        forall|i: nat|
            i < 32 ==> #[trigger] bit_of((a ^ b) as nat, i) == (bit_of(a as nat, i) != bit_of(
                b as nat,
                i,
            )),
        forall|i: nat| i < 32 ==> #[trigger] bit_of((!a) as nat, i) == !bit_of(a as nat, i),
{
    assert forall|i: nat|
        #![trigger bit_of((a | b) as nat, i)]
        #![trigger bit_of((a & b) as nat, i)]
        #![trigger bit_of((a ^ b) as nat, i)]
        #![trigger bit_of((!a) as nat, i)]
        i < 32 implies (bit_of((a | b) as nat, i) == (bit_of(a as nat, i) || bit_of(b as nat, i)))
        && (bit_of((a & b) as nat, i) == (bit_of(a as nat, i) && bit_of(b as nat, i))) && (bit_of(
        (a ^ b) as nat,
        i,
    ) == (bit_of(a as nat, i) != bit_of(b as nat, i))) && (bit_of((!a) as nat, i) == !bit_of(
        a as nat,
        i,
    )) by {
        let j = i as u32;
        lemma_u32_bit(a, j);
        lemma_u32_bit(b, j);
        lemma_u32_bit(a | b, j);
        lemma_u32_bit(a & b, j);
        lemma_u32_bit(a ^ b, j);
        lemma_u32_bit(!a, j);
        assert(((((a | b) >> j) & 1 == 1) == (((a >> j) & 1 == 1) || ((b >> j) & 1 == 1)))
            && ((((a & b) >> j) & 1 == 1) == (((a >> j) & 1 == 1) && ((b >> j) & 1 == 1))) && ((((a
            ^ b) >> j) & 1 == 1) == (((a >> j) & 1 == 1) != ((b >> j) & 1 == 1))) && ((((!a) >> j)
            & 1 == 1) == !((a >> j) & 1 == 1))) by (bit_vector)
            requires
                j < 32,
        ;
    }
}

/// The low-mask construction sets exactly the bits below `n` of a `u32`.
proof fn lemma_u32_ones(n: u32, r: u32)
    by (bit_vector)
    requires
        n <= 32,
        r == if n == 0 {
            0u32
        } else {
            0xffff_ffffu32 >> ((32 - n) as u32)
        },
    ensures
        forall|j: u32| j < 32 ==> (((r >> j) & 1 == 1) == (j < n)),
{
}

/// The single-bit construction sets exactly bit `i` of a `u32`.
proof fn lemma_u32_one_at(i: u32, r: u32)
    by (bit_vector)
    requires
        i < 32,
        r == (1u32 << i),
    ensures
        forall|j: u32| j < 32 ==> (((r >> j) & 1 == 1) == (j == i)),
{
}

impl Unsigned for u32 {
    open spec fn spec_bits() -> nat {
        32
    }

    open spec fn as_nat(self) -> nat {
        self as nat
    }

    proof fn lemma_as_nat_bound(self) {
        lemma2_to64();
    }

    proof fn lemma_as_nat_injective(self, other: Self) {
    }

    open spec fn spec_from_nat(n: nat) -> Self {
        n as u32
    }

    proof fn lemma_spec_from_nat(n: nat) {
        lemma2_to64();
        lemma2_to64_rest();
        lemma_pow2_adds(64, 64);
    }

    fn bits() -> usize {
        32
    }

    fn zero() -> Self {
        0
    }

    fn from_usize_unchecked(source: usize) -> Self {
        proof {
            lemma2_to64();
        }
        source as u32
    }

    fn to_usize(self) -> usize {
        self as usize
    }

    fn ones(n: usize) -> (r: Self) {
        let r: u32 = if n == 0 {
            0
        } else {
            0xffff_ffffu32 >> ((32 - n) as u32)
        };
        proof {
            lemma_u32_ones(n as u32, r);
            assert forall|i: nat| i < 32 implies #[trigger] bit_of(r as nat, i) == (i < n) by {
                lemma_u32_bit(r, i as u32);
            }
        }
        r
    }

    fn one_at(i: usize) -> (r: Self) {
        let r: u32 = 1u32 << (i as u32);
        proof {
            lemma_u32_one_at(i as u32, r);
            assert forall|j: nat| j < 32 implies #[trigger] bit_of(r as nat, j) == (j == i) by {
                lemma_u32_bit(r, j as u32);
            }
        }
        r
    }

    fn bit_at(self, i: usize) -> (b: bool) {
        proof {
            lemma_u32_bit(self, i as u32);
        }
        (self >> (i as u32)) & 1 == 1
    }

    fn bitor(self, other: Self) -> (r: Self) {
        proof {
            lemma_u32_bitops(self, other);
        }
        self | other
    }

    fn bitand(self, other: Self) -> (r: Self) {
        proof {
            lemma_u32_bitops(self, other);
        }
        self & other
    }

    fn bitxor(self, other: Self) -> (r: Self) {
        proof {
            lemma_u32_bitops(self, other);
        }
        self ^ other
    }

    fn complement(self) -> (r: Self) {
        proof {
            lemma_u32_bitops(self, self);
        }
        !self
    }

    fn equals(self, other: Self) -> bool {
        self == other
    }

    fn lt(self, other: Self) -> bool {
        self < other
    }
}


/// Digit `i` of a `u64`'s model is its machine bit `i`.
proof fn lemma_u64_bit(x: u64, i: u64)
    requires
        i < 64,
    ensures
        ((x >> i) & 1 == 1) == bit_of(x as nat, i as nat),
{
    vstd::bits::lemma_u64_shr_is_div(x, i);
    assert((x >> i) & 1 == (x >> i) % 2) by (bit_vector);
}

/// The four bitwise connectives act digit by digit on a `u64`'s model.
proof fn lemma_u64_bitops(a: u64, b: u64)
    ensures
        forall|i: nat|
            i < 64 ==> #[trigger] bit_of((a | b) as nat, i) == (bit_of(a as nat, i) || bit_of(
                b as nat,
                i,
            )),
        forall|i: nat|
            i < 64 ==> #[trigger] bit_of((a & b) as nat, i) == (bit_of(a as nat, i) && bit_of(
                b as nat,
                i,
            )),
        forall|i: nat|
            i < 64 ==> #[trigger] bit_of((a ^ b) as nat, i) == (bit_of(a as nat, i) != bit_of(
                b as nat,
                i,
            )),
        forall|i: nat| i < 64 ==> #[trigger] bit_of((!a) as nat, i) == !bit_of(a as nat, i),
{
    assert forall|i: nat|
        #![trigger bit_of((a | b) as nat, i)]
        #![trigger bit_of((a & b) as nat, i)]
        #![trigger bit_of((a ^ b) as nat, i)]
        #![trigger bit_of((!a) as nat, i)]
        i < 64 implies (bit_of((a | b) as nat, i) == (bit_of(a as nat, i) || bit_of(b as nat, i)))
        && (bit_of((a & b) as nat, i) == (bit_of(a as nat, i) && bit_of(b as nat, i))) && (bit_of(
        (a ^ b) as nat,
        i,
    ) == (bit_of(a as nat, i) != bit_of(b as nat, i))) && (bit_of((!a) as nat, i) == !bit_of(
        a as nat,
        i,
    )) by {
        let j = i as u64;
        lemma_u64_bit(a, j);
        lemma_u64_bit(b, j);
        lemma_u64_bit(a | b, j);
        lemma_u64_bit(a & b, j);
        lemma_u64_bit(a ^ b, j);
        lemma_u64_bit(!a, j);
        assert(((((a | b) >> j) & 1 == 1) == (((a >> j) & 1 == 1) || ((b >> j) & 1 == 1)))
            && ((((a & b) >> j) & 1 == 1) == (((a >> j) & 1 == 1) && ((b >> j) & 1 == 1))) && ((((a
            ^ b) >> j) & 1 == 1) == (((a >> j) & 1 == 1) != ((b >> j) & 1 == 1))) && ((((!a) >> j)
            & 1 == 1) == !((a >> j) & 1 == 1))) by (bit_vector)
            requires
                j < 64,
        ;
    }
}

/// The low-mask construction sets exactly the bits below `n` of a `u64`.
proof fn lemma_u64_ones(n: u64, r: u64)
    by (bit_vector)
    requires
        n <= 64,
        r == if n == 0 {
            0u64
        } else {
            0xffff_ffff_ffff_ffffu64 >> ((64 - n) as u64)
        },
    ensures
        forall|j: u64| j < 64 ==> (((r >> j) & 1 == 1) == (j < n)),
{
}

/// The single-bit construction sets exactly bit `i` of a `u64`.
proof fn lemma_u64_one_at(i: u64, r: u64)
    by (bit_vector)
    requires
        i < 64,
        r == (1u64 << i),
    ensures
        forall|j: u64| j < 64 ==> (((r >> j) & 1 == 1) == (j == i)),
{
}

impl Unsigned for u64 {
    open spec fn spec_bits() -> nat {
        64
    }

    open spec fn as_nat(self) -> nat {
        self as nat
    }

    proof fn lemma_as_nat_bound(self) {
        lemma2_to64();
    }

    proof fn lemma_as_nat_injective(self, other: Self) {
    }

    open spec fn spec_from_nat(n: nat) -> Self {
        n as u64
    }

    proof fn lemma_spec_from_nat(n: nat) {
        lemma2_to64();
        lemma2_to64_rest();
        lemma_pow2_adds(64, 64);
    }

    fn bits() -> usize {
        64
    }

    fn zero() -> Self {
        0
    }

    fn from_usize_unchecked(source: usize) -> Self {
        proof {
            lemma2_to64();
        }
        source as u64
    }

    fn to_usize(self) -> usize {
        self as usize
    }

    fn ones(n: usize) -> (r: Self) {
        let r: u64 = if n == 0 {
            0
        } else {
            0xffff_ffff_ffff_ffffu64 >> ((64 - n) as u64)
        };
        proof {
            lemma_u64_ones(n as u64, r);
            assert forall|i: nat| i < 64 implies #[trigger] bit_of(r as nat, i) == (i < n) by {
                lemma_u64_bit(r, i as u64);
            }
        }
        r
    }

    fn one_at(i: usize) -> (r: Self) {
        let r: u64 = 1u64 << (i as u64);
        proof {
            lemma_u64_one_at(i as u64, r);
            assert forall|j: nat| j < 64 implies #[trigger] bit_of(r as nat, j) == (j == i) by {
                lemma_u64_bit(r, j as u64);
            }
        }
        r
    }

    fn bit_at(self, i: usize) -> (b: bool) {
        proof {
            lemma_u64_bit(self, i as u64);
        }
        (self >> (i as u64)) & 1 == 1
    }

    fn bitor(self, other: Self) -> (r: Self) {
        proof {
            lemma_u64_bitops(self, other);
        }
        self | other
    }

    fn bitand(self, other: Self) -> (r: Self) {
        proof {
            lemma_u64_bitops(self, other);
        }
        self & other
    }

    fn bitxor(self, other: Self) -> (r: Self) {
        proof {
            lemma_u64_bitops(self, other);
        }
        self ^ other
    }

    fn complement(self) -> (r: Self) {
        proof {
            lemma_u64_bitops(self, self);
        }
        !self
    }

    fn equals(self, other: Self) -> bool {
        self == other
    }

    fn lt(self, other: Self) -> bool {
        self < other
    }
}


/// Digit `i` of a `u128`'s model is its machine bit `i`.
proof fn lemma_u128_bit(x: u128, i: u128)
    requires
        i < 128,
    ensures
        ((x >> i) & 1 == 1) == bit_of(x as nat, i as nat),
{
    vstd::bits::lemma_u128_shr_is_div(x, i);
    assert((x >> i) & 1 == (x >> i) % 2) by (bit_vector);
}

/// The four bitwise connectives act digit by digit on a `u128`'s model.
proof fn lemma_u128_bitops(a: u128, b: u128)
    ensures
        forall|i: nat|
            i < 128 ==> #[trigger] bit_of((a | b) as nat, i) == (bit_of(a as nat, i) || bit_of(
                b as nat,
                i,
            )),
        forall|i: nat|
            i < 128 ==> #[trigger] bit_of((a & b) as nat, i) == (bit_of(a as nat, i) && bit_of(
                b as nat,
                i,
            )),
        forall|i: nat|
            i < 128 ==> #[trigger] bit_of((a ^ b) as nat, i) == (bit_of(a as nat, i) != bit_of(
                b as nat,
                i,
            )),
        forall|i: nat| i < 128 ==> #[trigger] bit_of((!a) as nat, i) == !bit_of(a as nat, i),
{
    assert forall|i: nat|
        #![trigger bit_of((a | b) as nat, i)]
        #![trigger bit_of((a & b) as nat, i)]
        #![trigger bit_of((a ^ b) as nat, i)]
        #![trigger bit_of((!a) as nat, i)]
        i < 128 implies (bit_of((a | b) as nat, i) == (bit_of(a as nat, i) || bit_of(b as nat, i)))
        && (bit_of((a & b) as nat, i) == (bit_of(a as nat, i) && bit_of(b as nat, i))) && (bit_of(
        (a ^ b) as nat,
        i,
    ) == (bit_of(a as nat, i) != bit_of(b as nat, i))) && (bit_of((!a) as nat, i) == !bit_of(
        a as nat,
        i,
    )) by {
        let j = i as u128;
        lemma_u128_bit(a, j);
        lemma_u128_bit(b, j);
        lemma_u128_bit(a | b, j);
        lemma_u128_bit(a & b, j);
        lemma_u128_bit(a ^ b, j);
        lemma_u128_bit(!a, j);
        assert(((((a | b) >> j) & 1 == 1) == (((a >> j) & 1 == 1) || ((b >> j) & 1 == 1)))
            && ((((a & b) >> j) & 1 == 1) == (((a >> j) & 1 == 1) && ((b >> j) & 1 == 1))) && ((((a
            ^ b) >> j) & 1 == 1) == (((a >> j) & 1 == 1) != ((b >> j) & 1 == 1))) && ((((!a) >> j)
            & 1 == 1) == !((a >> j) & 1 == 1))) by (bit_vector)
            requires
                j < 128,
        ;
    }
}

/// The low-mask construction sets exactly the bits below `n` of a `u128`.
proof fn lemma_u128_ones(n: u128, r: u128)
    by (bit_vector)
    requires
        n <= 128,
        r == if n == 0 {
            0u128
        } else {
            0xffff_ffff_ffff_ffff_ffff_ffff_ffff_ffffu128 >> ((128 - n) as u128)
        },
    ensures
        forall|j: u128| j < 128 ==> (((r >> j) & 1 == 1) == (j < n)),
{
}

/// The single-bit construction sets exactly bit `i` of a `u128`.
proof fn lemma_u128_one_at(i: u128, r: u128)
    by (bit_vector)
    requires
        i < 128,
        r == (1u128 << i),
    ensures
        forall|j: u128| j < 128 ==> (((r >> j) & 1 == 1) == (j == i)),
{
}

impl Unsigned for u128 {
    open spec fn spec_bits() -> nat {
        128
    }

    open spec fn as_nat(self) -> nat {
        self as nat
    }

    proof fn lemma_as_nat_bound(self) {
        lemma2_to64_rest();
        lemma_pow2_adds(64, 64);
    }

    proof fn lemma_as_nat_injective(self, other: Self) {
    }

    open spec fn spec_from_nat(n: nat) -> Self {
        n as u128
    }

    proof fn lemma_spec_from_nat(n: nat) {
        lemma2_to64();
        lemma2_to64_rest();
        lemma_pow2_adds(64, 64);
    }

    fn bits() -> usize {
        128
    }

    fn zero() -> Self {
        0
    }

    fn from_usize_unchecked(source: usize) -> Self {
        proof {
            lemma2_to64();
        }
        source as u128
    }

    fn to_usize(self) -> usize {
        self as usize
    }

    fn ones(n: usize) -> (r: Self) {
        let r: u128 = if n == 0 {
            0
        } else {
            0xffff_ffff_ffff_ffff_ffff_ffff_ffff_ffffu128 >> ((128 - n) as u128)
        };
        proof {
            lemma_u128_ones(n as u128, r);
            assert forall|i: nat| i < 128 implies #[trigger] bit_of(r as nat, i) == (i < n) by {
                lemma_u128_bit(r, i as u128);
            }
        }
        r
    }

    fn one_at(i: usize) -> (r: Self) {
        let r: u128 = 1u128 << (i as u128);
        proof {
            lemma_u128_one_at(i as u128, r);
            assert forall|j: nat| j < 128 implies #[trigger] bit_of(r as nat, j) == (j == i) by {
                lemma_u128_bit(r, j as u128);
            }
        }
        r
    }

    fn bit_at(self, i: usize) -> (b: bool) {
        proof {
            lemma_u128_bit(self, i as u128);
        }
        (self >> (i as u128)) & 1 == 1
    }

    fn bitor(self, other: Self) -> (r: Self) {
        proof {
            lemma_u128_bitops(self, other);
        }
        self | other
    }

    fn bitand(self, other: Self) -> (r: Self) {
        proof {
            lemma_u128_bitops(self, other);
        }
        self & other
    }

    fn bitxor(self, other: Self) -> (r: Self) {
        proof {
            lemma_u128_bitops(self, other);
        }
        self ^ other
    }

    fn complement(self) -> (r: Self) {
        proof {
            lemma_u128_bitops(self, self);
        }
        !self
    }

    fn equals(self, other: Self) -> bool {
        self == other
    }

    fn lt(self, other: Self) -> bool {
        self < other
    }
}



/// The number of binary digits of `n`: the least `b` with `n < 2^b`.
pub open spec fn spec_bit_len(n: nat) -> nat
    decreases n,
{
    if n == 0 {
        0
    } else {
        1 + spec_bit_len(n / 2)
    }
}

/// The digit count is sufficient, and no smaller count is.
pub proof fn lemma_bit_len_bounds(n: nat)
    ensures
        n < pow2(spec_bit_len(n)),
        n > 0 ==> pow2((spec_bit_len(n) - 1) as nat) <= n,
    decreases n,
{
    if n == 0 {
        lemma2_to64();
    } else {
        lemma_bit_len_bounds(n / 2);
        lemma_pow2_unfold(spec_bit_len(n));
        lemma_fundamental_div_mod(n as int, 2);
        if n / 2 == 0 {
            lemma2_to64();
        } else {
            lemma_pow2_unfold(spec_bit_len(n / 2));
        }
    }
}

/// A bound on the number makes the same bound on its digit count.
pub proof fn lemma_bit_len_le(n: nat, k: nat)
    requires
        n < pow2(k),
    ensures
        spec_bit_len(n) <= k,
    decreases n,
{
    if n > 0 {
        lemma_pow2_pos(k);
        if k == 0 {
            lemma2_to64();
        } else {
            lemma_pow2_unfold(k);
            lemma_fundamental_div_mod(n as int, 2);
            lemma_bit_len_le(n / 2, (k - 1) as nat);
        }
    }
}

/// The base-2 logarithm of `n`, rounded up: the least `b` with `n <= 2^b`.
/// A domain of `n` values needs this many bits for its indices, and a domain
/// of at most one value needs none.
pub open spec fn spec_log2(n: nat) -> nat {
    if n == 0 {
        0
    } else {
        spec_bit_len((n - 1) as nat)
    }
}

/// The rounded-up logarithm gives digits enough for all `n` indices, and for
/// a domain of two or more values no smaller count serves.
pub proof fn lemma_log2_bounds(n: nat)
    ensures
        n <= pow2(spec_log2(n)),
        n >= 2 ==> pow2((spec_log2(n) - 1) as nat) < n,
{
    if n == 0 {
        lemma_pow2_pos(0);
    } else {
        lemma_bit_len_bounds((n - 1) as nat);
        if n == 1 {
            lemma2_to64();
        }
    }
}

/// Computes the base-2 logarithm of `n`, rounding up, with zero at the inputs
/// 0 and 1: a domain of `n` values needs `log2(n)` bits for its indices, and
/// a domain of at most one value needs none.
pub fn log2(n: usize) -> (r: usize)
    ensures
        r == spec_log2(n as nat),
        n <= pow2(r as nat),
        n >= 2 ==> pow2((r - 1) as nat) < n,
{
    proof {
        lemma_log2_bounds(n as nat);
    }
    if n == 0 {
        return 0;
    }
    let top = n - 1;
    proof {
        lemma2_to64_rest();
        lemma_bit_len_le(top as nat, 64);
    }
    let mut b: usize = 0;
    let mut m: usize = top;
    while m > 0
        invariant
            spec_bit_len(top as nat) == b + spec_bit_len(m as nat),
            b <= spec_bit_len(top as nat),
            spec_bit_len(top as nat) <= 64,
        decreases m,
    {
        m = m / 2;
        b = b + 1;
    }
    b
}

/// The ladder of concrete widths: the narrowest of 0, 8, 16, 32, 64 and 128
/// bits that covers a required bit count.
pub open spec fn smallest_width(n: nat) -> nat {
    if n == 0 {
        0
    } else if n <= 8 {
        8
    } else if n <= 16 {
        16
    } else if n <= 32 {
        32
    } else if n <= 64 {
        64
    } else {
        128
    }
}

/// A required bit count, carried at the type level so that the registry can
/// resolve it to a backing store.
pub struct NumBits<const N: usize>;

/// The registry entry for one required bit count: the narrowest backing store
/// that covers it.
pub trait HasUint {
    /// The bit count this entry serves.
    spec fn spec_needed() -> nat;

    /// The store this entry resolves to.
    type Uint: Unsigned;

    /// The entry's invariant: the store covers the need and is the smallest
    /// ladder width doing so.
    proof fn lemma_smallest()
        ensures
            Self::spec_needed() <= <Self::Uint as Unsigned>::spec_bits(),
            <Self::Uint as Unsigned>::spec_bits() == smallest_width(Self::spec_needed()),
    ;
}

/// The narrowest backing store with at least `N` bits.
pub type Uint<const N: usize> = <NumBits<N> as HasUint>::Uint;

impl HasUint for NumBits<0> {
    open spec fn spec_needed() -> nat {
        0
    }

    type Uint = u0;

    proof fn lemma_smallest() {
    }
}

impl HasUint for NumBits<1> {
    open spec fn spec_needed() -> nat {
        1
    }

    type Uint = u8;

    proof fn lemma_smallest() {
    }
}

impl HasUint for NumBits<2> {
    open spec fn spec_needed() -> nat {
        2
    }

    type Uint = u8;

    proof fn lemma_smallest() {
    }
}

impl HasUint for NumBits<3> {
    open spec fn spec_needed() -> nat {
        3
    }

    type Uint = u8;

    proof fn lemma_smallest() {
    }
}

impl HasUint for NumBits<4> {
    open spec fn spec_needed() -> nat {
        4
    }

    type Uint = u8;

    proof fn lemma_smallest() {
    }
}

impl HasUint for NumBits<5> {
    open spec fn spec_needed() -> nat {
        5
    }

    type Uint = u8;

    proof fn lemma_smallest() {
    }
}

impl HasUint for NumBits<6> {
    open spec fn spec_needed() -> nat {
        6
    }

    type Uint = u8;

    proof fn lemma_smallest() {
    }
}

impl HasUint for NumBits<7> {
    open spec fn spec_needed() -> nat {
        7
    }

    type Uint = u8;

    proof fn lemma_smallest() {
    }
}

impl HasUint for NumBits<8> {
    open spec fn spec_needed() -> nat {
        8
    }

    type Uint = u8;

    proof fn lemma_smallest() {
    }
}

impl HasUint for NumBits<9> {
    open spec fn spec_needed() -> nat {
        9
    }

    type Uint = u16;

    proof fn lemma_smallest() {
    }
}

impl HasUint for NumBits<10> {
    open spec fn spec_needed() -> nat {
        10
    }

    type Uint = u16;

    proof fn lemma_smallest() {
    }
}

impl HasUint for NumBits<11> {
    open spec fn spec_needed() -> nat {
        11
    }

    type Uint = u16;

    proof fn lemma_smallest() {
    }
}

impl HasUint for NumBits<12> {
    open spec fn spec_needed() -> nat {
        12
    }

    type Uint = u16;

    proof fn lemma_smallest() {
    }
}

impl HasUint for NumBits<13> {
    open spec fn spec_needed() -> nat {
        13
    }

    type Uint = u16;

    proof fn lemma_smallest() {
    }
}

impl HasUint for NumBits<14> {
    open spec fn spec_needed() -> nat {
        14
    }

    type Uint = u16;

    proof fn lemma_smallest() {
    }
}

impl HasUint for NumBits<15> {
    open spec fn spec_needed() -> nat {
        15
    }

    type Uint = u16;

    proof fn lemma_smallest() {
    }
}

impl HasUint for NumBits<16> {
    open spec fn spec_needed() -> nat {
        16
    }

    type Uint = u16;

    proof fn lemma_smallest() {
    }
}

impl HasUint for NumBits<17> {
    open spec fn spec_needed() -> nat {
        17
    }

    type Uint = u32;

    proof fn lemma_smallest() {
    }
}

impl HasUint for NumBits<18> {
    open spec fn spec_needed() -> nat {
        18
    }

    type Uint = u32;

    proof fn lemma_smallest() {
    }
}

impl HasUint for NumBits<19> {
    open spec fn spec_needed() -> nat {
        19
    }

    type Uint = u32;

    proof fn lemma_smallest() {
    }
}

impl HasUint for NumBits<20> {
    open spec fn spec_needed() -> nat {
        20
    }

    type Uint = u32;

    proof fn lemma_smallest() {
    }
}

impl HasUint for NumBits<21> {
    open spec fn spec_needed() -> nat {
        21
    }

    type Uint = u32;

    proof fn lemma_smallest() {
    }
}

impl HasUint for NumBits<22> {
    open spec fn spec_needed() -> nat {
        22
    }

    type Uint = u32;

    proof fn lemma_smallest() {
    }
}

impl HasUint for NumBits<23> {
    open spec fn spec_needed() -> nat {
        23
    }

    type Uint = u32;

    proof fn lemma_smallest() {
    }
}

impl HasUint for NumBits<24> {
    open spec fn spec_needed() -> nat {
        24
    }

    type Uint = u32;

    proof fn lemma_smallest() {
    }
}

impl HasUint for NumBits<25> {
    open spec fn spec_needed() -> nat {
        25
    }

    type Uint = u32;

    proof fn lemma_smallest() {
    }
}

impl HasUint for NumBits<26> {
    open spec fn spec_needed() -> nat {
        26
    }

    type Uint = u32;

    proof fn lemma_smallest() {
    }
}

impl HasUint for NumBits<27> {
    open spec fn spec_needed() -> nat {
        27
    }

    type Uint = u32;

    proof fn lemma_smallest() {
    }
}

impl HasUint for NumBits<28> {
    open spec fn spec_needed() -> nat {
        28
    }

    type Uint = u32;

    proof fn lemma_smallest() {
    }
}

impl HasUint for NumBits<29> {
    open spec fn spec_needed() -> nat {
        29
    }

    type Uint = u32;

    proof fn lemma_smallest() {
    }
}

impl HasUint for NumBits<30> {
    open spec fn spec_needed() -> nat {
        30
    }

    type Uint = u32;

    proof fn lemma_smallest() {
    }
}

impl HasUint for NumBits<31> {
    open spec fn spec_needed() -> nat {
        31
    }

    type Uint = u32;

    proof fn lemma_smallest() {
    }
}

impl HasUint for NumBits<32> {
    open spec fn spec_needed() -> nat {
        32
    }

    type Uint = u32;

    proof fn lemma_smallest() {
    }
}

impl HasUint for NumBits<33> {
    open spec fn spec_needed() -> nat {
        33
    }

    type Uint = u64;

    proof fn lemma_smallest() {
    }
}

impl HasUint for NumBits<34> {
    open spec fn spec_needed() -> nat {
        34
    }

    type Uint = u64;

    proof fn lemma_smallest() {
    }
}

impl HasUint for NumBits<35> {
    open spec fn spec_needed() -> nat {
        35
    }

    type Uint = u64;

    proof fn lemma_smallest() {
    }
}

impl HasUint for NumBits<36> {
    open spec fn spec_needed() -> nat {
        36
    }

    type Uint = u64;

    proof fn lemma_smallest() {
    }
}

impl HasUint for NumBits<37> {
    open spec fn spec_needed() -> nat {
        37
    }

    type Uint = u64;

    proof fn lemma_smallest() {
    }
}

impl HasUint for NumBits<38> {
    open spec fn spec_needed() -> nat {
        38
    }

    type Uint = u64;

    proof fn lemma_smallest() {
    }
}

impl HasUint for NumBits<39> {
    open spec fn spec_needed() -> nat {
        39
    }

    type Uint = u64;

    proof fn lemma_smallest() {
    }
}

impl HasUint for NumBits<40> {
    open spec fn spec_needed() -> nat {
        40
    }

    type Uint = u64;

    proof fn lemma_smallest() {
    }
}

impl HasUint for NumBits<41> {
    open spec fn spec_needed() -> nat {
        41
    }

    type Uint = u64;

    proof fn lemma_smallest() {
    }
}

impl HasUint for NumBits<42> {
    open spec fn spec_needed() -> nat {
        42
    }

    type Uint = u64;

    proof fn lemma_smallest() {
    }
}

impl HasUint for NumBits<43> {
    open spec fn spec_needed() -> nat {
        43
    }

    type Uint = u64;

    proof fn lemma_smallest() {
    }
}

impl HasUint for NumBits<44> {
    open spec fn spec_needed() -> nat {
        44
    }

    type Uint = u64;

    proof fn lemma_smallest() {
    }
}

impl HasUint for NumBits<45> {
    open spec fn spec_needed() -> nat {
        45
    }

    type Uint = u64;

    proof fn lemma_smallest() {
    }
}

impl HasUint for NumBits<46> {
    open spec fn spec_needed() -> nat {
        46
    }

    type Uint = u64;

    proof fn lemma_smallest() {
    }
}

impl HasUint for NumBits<47> {
    open spec fn spec_needed() -> nat {
        47
    }

    type Uint = u64;

    proof fn lemma_smallest() {
    }
}

impl HasUint for NumBits<48> {
    open spec fn spec_needed() -> nat {
        48
    }

    type Uint = u64;

    proof fn lemma_smallest() {
    }
}

impl HasUint for NumBits<49> {
    open spec fn spec_needed() -> nat {
        49
    }

    type Uint = u64;

    proof fn lemma_smallest() {
    }
}

impl HasUint for NumBits<50> {
    open spec fn spec_needed() -> nat {
        50
    }

    type Uint = u64;

    proof fn lemma_smallest() {
    }
}

impl HasUint for NumBits<51> {
    open spec fn spec_needed() -> nat {
        51
    }

    type Uint = u64;

    proof fn lemma_smallest() {
    }
}

impl HasUint for NumBits<52> {
    open spec fn spec_needed() -> nat {
        52
    }

    type Uint = u64;

    proof fn lemma_smallest() {
    }
}

impl HasUint for NumBits<53> {
    open spec fn spec_needed() -> nat {
        53
    }

    type Uint = u64;

    proof fn lemma_smallest() {
    }
}

impl HasUint for NumBits<54> {
    open spec fn spec_needed() -> nat {
        54
    }

    type Uint = u64;

    proof fn lemma_smallest() {
    }
}

impl HasUint for NumBits<55> {
    open spec fn spec_needed() -> nat {
        55
    }

    type Uint = u64;

    proof fn lemma_smallest() {
    }
}

impl HasUint for NumBits<56> {
    open spec fn spec_needed() -> nat {
        56
    }

    type Uint = u64;

    proof fn lemma_smallest() {
    }
}

impl HasUint for NumBits<57> {
    open spec fn spec_needed() -> nat {
        57
    }

    type Uint = u64;

    proof fn lemma_smallest() {
    }
}

impl HasUint for NumBits<58> {
    open spec fn spec_needed() -> nat {
        58
    }

    type Uint = u64;

    proof fn lemma_smallest() {
    }
}

impl HasUint for NumBits<59> {
    open spec fn spec_needed() -> nat {
        59
    }

    type Uint = u64;

    proof fn lemma_smallest() {
    }
}

impl HasUint for NumBits<60> {
    open spec fn spec_needed() -> nat {
        60
    }

    type Uint = u64;

    proof fn lemma_smallest() {
    }
}

impl HasUint for NumBits<61> {
    open spec fn spec_needed() -> nat {
        61
    }

    type Uint = u64;

    proof fn lemma_smallest() {
    }
}

impl HasUint for NumBits<62> {
    open spec fn spec_needed() -> nat {
        62
    }

    type Uint = u64;

    proof fn lemma_smallest() {
    }
}

impl HasUint for NumBits<63> {
    open spec fn spec_needed() -> nat {
        63
    }

    type Uint = u64;

    proof fn lemma_smallest() {
    }
}

impl HasUint for NumBits<64> {
    open spec fn spec_needed() -> nat {
        64
    }

    type Uint = u64;

    proof fn lemma_smallest() {
    }
}

impl HasUint for NumBits<65> {
    open spec fn spec_needed() -> nat {
        65
    }

    type Uint = u128;

    proof fn lemma_smallest() {
    }
}

impl HasUint for NumBits<66> {
    open spec fn spec_needed() -> nat {
        66
    }

    type Uint = u128;

    proof fn lemma_smallest() {
    }
}

impl HasUint for NumBits<67> {
    open spec fn spec_needed() -> nat {
        67
    }

    type Uint = u128;

    proof fn lemma_smallest() {
    }
}

impl HasUint for NumBits<68> {
    open spec fn spec_needed() -> nat {
        68
    }

    type Uint = u128;

    proof fn lemma_smallest() {
    }
}

impl HasUint for NumBits<69> {
    open spec fn spec_needed() -> nat {
        69
    }

    type Uint = u128;

    proof fn lemma_smallest() {
    }
}

impl HasUint for NumBits<70> {
    open spec fn spec_needed() -> nat {
        70
    }

    type Uint = u128;

    proof fn lemma_smallest() {
    }
}

impl HasUint for NumBits<71> {
    open spec fn spec_needed() -> nat {
        71
    }

    type Uint = u128;

    proof fn lemma_smallest() {
    }
}

impl HasUint for NumBits<72> {
    open spec fn spec_needed() -> nat {
        72
    }

    type Uint = u128;

    proof fn lemma_smallest() {
    }
}

impl HasUint for NumBits<73> {
    open spec fn spec_needed() -> nat {
        73
    }

    type Uint = u128;

    proof fn lemma_smallest() {
    }
}

impl HasUint for NumBits<74> {
    open spec fn spec_needed() -> nat {
        74
    }

    type Uint = u128;

    proof fn lemma_smallest() {
    }
}

impl HasUint for NumBits<75> {
    open spec fn spec_needed() -> nat {
        75
    }

    type Uint = u128;

    proof fn lemma_smallest() {
    }
}

impl HasUint for NumBits<76> {
    open spec fn spec_needed() -> nat {
        76
    }

    type Uint = u128;

    proof fn lemma_smallest() {
    }
}

impl HasUint for NumBits<77> {
    open spec fn spec_needed() -> nat {
        77
    }

    type Uint = u128;

    proof fn lemma_smallest() {
    }
}

impl HasUint for NumBits<78> {
    open spec fn spec_needed() -> nat {
        78
    }

    type Uint = u128;

    proof fn lemma_smallest() {
    }
}

impl HasUint for NumBits<79> {
    open spec fn spec_needed() -> nat {
        79
    }

    type Uint = u128;

    proof fn lemma_smallest() {
    }
}

impl HasUint for NumBits<80> {
    open spec fn spec_needed() -> nat {
        80
    }

    type Uint = u128;

    proof fn lemma_smallest() {
    }
}

impl HasUint for NumBits<81> {
    open spec fn spec_needed() -> nat {
        81
    }

    type Uint = u128;

    proof fn lemma_smallest() {
    }
}

impl HasUint for NumBits<82> {
    open spec fn spec_needed() -> nat {
        82
    }

    type Uint = u128;

    proof fn lemma_smallest() {
    }
}

impl HasUint for NumBits<83> {
    open spec fn spec_needed() -> nat {
        83
    }

    type Uint = u128;

    proof fn lemma_smallest() {
    }
}

impl HasUint for NumBits<84> {
    open spec fn spec_needed() -> nat {
        84
    }

    type Uint = u128;

    proof fn lemma_smallest() {
    }
}

impl HasUint for NumBits<85> {
    open spec fn spec_needed() -> nat {
        85
    }

    type Uint = u128;

    proof fn lemma_smallest() {
    }
}

impl HasUint for NumBits<86> {
    open spec fn spec_needed() -> nat {
        86
    }

    type Uint = u128;

    proof fn lemma_smallest() {
    }
}

impl HasUint for NumBits<87> {
    open spec fn spec_needed() -> nat {
        87
    }

    type Uint = u128;

    proof fn lemma_smallest() {
    }
}

impl HasUint for NumBits<88> {
    open spec fn spec_needed() -> nat {
        88
    }

    type Uint = u128;

    proof fn lemma_smallest() {
    }
}

impl HasUint for NumBits<89> {
    open spec fn spec_needed() -> nat {
        89
    }

    type Uint = u128;

    proof fn lemma_smallest() {
    }
}

impl HasUint for NumBits<90> {
    open spec fn spec_needed() -> nat {
        90
    }

    type Uint = u128;

    proof fn lemma_smallest() {
    }
}

impl HasUint for NumBits<91> {
    open spec fn spec_needed() -> nat {
        91
    }

    type Uint = u128;

    proof fn lemma_smallest() {
    }
}

impl HasUint for NumBits<92> {
    open spec fn spec_needed() -> nat {
        92
    }

    type Uint = u128;

    proof fn lemma_smallest() {
    }
}

impl HasUint for NumBits<93> {
    open spec fn spec_needed() -> nat {
        93
    }

    type Uint = u128;

    proof fn lemma_smallest() {
    }
}

impl HasUint for NumBits<94> {
    open spec fn spec_needed() -> nat {
        94
    }

    type Uint = u128;

    proof fn lemma_smallest() {
    }
}

impl HasUint for NumBits<95> {
    open spec fn spec_needed() -> nat {
        95
    }

    type Uint = u128;

    proof fn lemma_smallest() {
    }
}

impl HasUint for NumBits<96> {
    open spec fn spec_needed() -> nat {
        96
    }

    type Uint = u128;

    proof fn lemma_smallest() {
    }
}

impl HasUint for NumBits<97> {
    open spec fn spec_needed() -> nat {
        97
    }

    type Uint = u128;

    proof fn lemma_smallest() {
    }
}

impl HasUint for NumBits<98> {
    open spec fn spec_needed() -> nat {
        98
    }

    type Uint = u128;

    proof fn lemma_smallest() {
    }
}

impl HasUint for NumBits<99> {
    open spec fn spec_needed() -> nat {
        99
    }

    type Uint = u128;

    proof fn lemma_smallest() {
    }
}

impl HasUint for NumBits<100> {
    open spec fn spec_needed() -> nat {
        100
    }

    type Uint = u128;

    proof fn lemma_smallest() {
    }
}

impl HasUint for NumBits<101> {
    open spec fn spec_needed() -> nat {
        101
    }

    type Uint = u128;

    proof fn lemma_smallest() {
    }
}

impl HasUint for NumBits<102> {
    open spec fn spec_needed() -> nat {
        102
    }

    type Uint = u128;

    proof fn lemma_smallest() {
    }
}

impl HasUint for NumBits<103> {
    open spec fn spec_needed() -> nat {
        103
    }

    type Uint = u128;

    proof fn lemma_smallest() {
    }
}

impl HasUint for NumBits<104> {
    open spec fn spec_needed() -> nat {
        104
    }

    type Uint = u128;

    proof fn lemma_smallest() {
    }
}

impl HasUint for NumBits<105> {
    open spec fn spec_needed() -> nat {
        105
    }

    type Uint = u128;

    proof fn lemma_smallest() {
    }
}

impl HasUint for NumBits<106> {
    open spec fn spec_needed() -> nat {
        106
    }

    type Uint = u128;

    proof fn lemma_smallest() {
    }
}

impl HasUint for NumBits<107> {
    open spec fn spec_needed() -> nat {
        107
    }

    type Uint = u128;

    proof fn lemma_smallest() {
    }
}

impl HasUint for NumBits<108> {
    open spec fn spec_needed() -> nat {
        108
    }

    type Uint = u128;

    proof fn lemma_smallest() {
    }
}

impl HasUint for NumBits<109> {
    open spec fn spec_needed() -> nat {
        109
    }

    type Uint = u128;

    proof fn lemma_smallest() {
    }
}

impl HasUint for NumBits<110> {
    open spec fn spec_needed() -> nat {
        110
    }

    type Uint = u128;

    proof fn lemma_smallest() {
    }
}

impl HasUint for NumBits<111> {
    open spec fn spec_needed() -> nat {
        111
    }

    type Uint = u128;

    proof fn lemma_smallest() {
    }
}

impl HasUint for NumBits<112> {
    open spec fn spec_needed() -> nat {
        112
    }

    type Uint = u128;

    proof fn lemma_smallest() {
    }
}

impl HasUint for NumBits<113> {
    open spec fn spec_needed() -> nat {
        113
    }

    type Uint = u128;

    proof fn lemma_smallest() {
    }
}

impl HasUint for NumBits<114> {
    open spec fn spec_needed() -> nat {
        114
    }

    type Uint = u128;

    proof fn lemma_smallest() {
    }
}

impl HasUint for NumBits<115> {
    open spec fn spec_needed() -> nat {
        115
    }

    type Uint = u128;

    proof fn lemma_smallest() {
    }
}

impl HasUint for NumBits<116> {
    open spec fn spec_needed() -> nat {
        116
    }

    type Uint = u128;

    proof fn lemma_smallest() {
    }
}

impl HasUint for NumBits<117> {
    open spec fn spec_needed() -> nat {
        117
    }

    type Uint = u128;

    proof fn lemma_smallest() {
    }
}

impl HasUint for NumBits<118> {
    open spec fn spec_needed() -> nat {
        118
    }

    type Uint = u128;

    proof fn lemma_smallest() {
    }
}

impl HasUint for NumBits<119> {
    open spec fn spec_needed() -> nat {
        119
    }

    type Uint = u128;

    proof fn lemma_smallest() {
    }
}

impl HasUint for NumBits<120> {
    open spec fn spec_needed() -> nat {
        120
    }

    type Uint = u128;

    proof fn lemma_smallest() {
    }
}

impl HasUint for NumBits<121> {
    open spec fn spec_needed() -> nat {
        121
    }

    type Uint = u128;

    proof fn lemma_smallest() {
    }
}

impl HasUint for NumBits<122> {
    open spec fn spec_needed() -> nat {
        122
    }

    type Uint = u128;

    proof fn lemma_smallest() {
    }
}

impl HasUint for NumBits<123> {
    open spec fn spec_needed() -> nat {
        123
    }

    type Uint = u128;

    proof fn lemma_smallest() {
    }
}

impl HasUint for NumBits<124> {
    open spec fn spec_needed() -> nat {
        124
    }

    type Uint = u128;

    proof fn lemma_smallest() {
    }
}

impl HasUint for NumBits<125> {
    open spec fn spec_needed() -> nat {
        125
    }

    type Uint = u128;

    proof fn lemma_smallest() {
    }
}

impl HasUint for NumBits<126> {
    open spec fn spec_needed() -> nat {
        126
    }

    type Uint = u128;

    proof fn lemma_smallest() {
    }
}

impl HasUint for NumBits<127> {
    open spec fn spec_needed() -> nat {
        127
    }

    type Uint = u128;

    proof fn lemma_smallest() {
    }
}

impl HasUint for NumBits<128> {
    open spec fn spec_needed() -> nat {
        128
    }

    type Uint = u128;

    proof fn lemma_smallest() {
    }
}

} // verus!
