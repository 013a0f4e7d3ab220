//! Compressed values: a value of a finite type stored as nothing but its
//! index, in the narrowest backing store that can hold every index.

use crate::Finite;
use crate::uint::{Unsigned, smallest_width, spec_log2};
use vstd::prelude::*;
use vstd::arithmetic::power2::pow2;

verus! {

/// The trait required to use [`Compress`] on a type: the bijection together
/// with a chosen backing store wide enough for every index of the domain.
pub trait CompressFinite: Finite {
    /// The backing store for the stored index.
    type Index: Unsigned;

    /// The chosen store covers every index of the domain, and is the
    /// narrowest ladder width the registry offers for that many indices.
    proof fn lemma_index_fits()
        ensures
            Self::spec_count() <= pow2(<Self::Index as Unsigned>::spec_bits()),
            <Self::Index as Unsigned>::spec_bits() == smallest_width(
                spec_log2(Self::spec_count()),
            ),
    ;
}

/// A compressed representation of a value of type `T`, holding the value's
/// index in `T`'s chosen backing store. The stored index is below the
/// domain's count by construction, so expansion never fails.
pub struct Compress<T: CompressFinite>(T::Index);

impl<T: CompressFinite> Compress<T> {
    /// The stored index.
    pub closed spec fn spec_index(self) -> nat {
        self.0.as_nat()
    }

    /// Every reachable compressed value is valid: the stored index is below
    /// the domain's count. Holders of a `Compress` value may recover this
    /// through `use_type_invariant`.
    #[verifier::type_invariant]
    pub open spec fn inv(self) -> bool {
        self.valid()
    }

    /// Constructs a compressed wrapper over the given value.
    pub fn new(value: T) -> (r: Self)
        requires
            T::wf(),
            value.valid(),
        ensures
            r.spec_index() == value.spec_index_of(),
    {
        proof {
            T::lemma_index_in_range(value);
            T::lemma_index_fits();
        }
        Compress(T::Index::from_usize_unchecked(T::index_of(value)))
    }

    /// Gets the expanded form of this compressed value. The call is total:
    /// the stored index is always below the count, so the lookup cannot miss.
    pub fn expand(&self) -> (r: T)
        requires
            T::wf(),
        ensures
            r == T::spec_nth(self.spec_index()),
            r.valid(),
    {
        proof {
            use_type_invariant(self);
            T::lemma_count_fits();
            T::lemma_nth_valid(self.spec_index());
        }
        let i = self.0.to_usize();
        T::nth(i).unwrap()
    }
}

impl<T: CompressFinite> Compress<T> {
    /// Whether the two compressed values stand for the same value.
    pub fn equals(&self, other: &Self) -> (r: bool)
        ensures
            r == (self.spec_index() == other.spec_index()),
            r == (*self == *other),
    {
        proof {
            self.0.lemma_as_nat_injective(other.0);
        }
        self.0.equals(other.0)
    }

    /// The order of compressed values: the order of the stored indices, which
    /// by the order homomorphism is the order of the values they stand for.
    pub fn lt(&self, other: &Self) -> (r: bool)
        ensures
            r == (self.spec_index() < other.spec_index()),
    {
        self.0.lt(other.0)
    }
}

/// Gets a compressed representation of the given value.
pub fn compress<T: CompressFinite>(value: T) -> (r: Compress<T>)
    requires
        T::wf(),
        value.valid(),
    ensures
        r.spec_index() == value.spec_index_of(),
{
    Compress::new(value)
}

/// A compressed value is itself finite over the same domain, with the same
/// count and the index it stores, so it nests into further compositions.
impl<T: CompressFinite> Finite for Compress<T> {
    open spec fn wf() -> bool {
        T::wf()
    }

    open spec fn spec_count() -> nat {
        T::spec_count()
    }

    open spec fn spec_index_of(self) -> nat {
        self.spec_index()
    }

    closed spec fn spec_nth(i: nat) -> Compress<T> {
        Compress(T::Index::spec_from_nat(i))
    }

    open spec fn spec_before(self, other: Self) -> bool {
        self.spec_index() < other.spec_index()
    }

    open spec fn valid(self) -> bool {
        self.spec_index() < T::spec_count()
    }

    proof fn lemma_count_fits() {
        T::lemma_count_fits();
    }

    proof fn lemma_index_in_range(v: Self) {
    }

    proof fn lemma_nth_valid(i: nat) {
        T::lemma_index_fits();
        T::Index::lemma_spec_from_nat(i);
    }

    proof fn lemma_nth_index_of(i: nat) {
        T::lemma_index_fits();
        T::Index::lemma_spec_from_nat(i);
    }

    proof fn lemma_index_of_nth(v: Self) {
        T::lemma_index_fits();
        T::Index::lemma_spec_from_nat(v.spec_index());
        T::Index::lemma_as_nat_injective(T::Index::spec_from_nat(v.spec_index()), v.0);
    }

    proof fn lemma_order_iso(a: Self, b: Self) {
    }

    fn count() -> usize {
        T::count()
    }

    fn index_of(value: Self) -> (i: usize) {
        proof {
            use_type_invariant(&value);
            T::lemma_count_fits();
        }
        value.0.to_usize()
    }

    fn nth(index: usize) -> (r: Option<Compress<T>>) {
        if index < T::count() {
            proof {
                T::lemma_index_fits();
                T::Index::lemma_spec_from_nat(index as nat);
            }
            let stored = T::Index::from_usize_unchecked(index);
            proof {
                T::Index::lemma_as_nat_injective(stored, T::Index::spec_from_nat(index as nat));
            }
            Some(Compress(stored))
        } else {
            None
        }
    }
}

impl<T: CompressFinite> Clone for Compress<T> {
    fn clone(&self) -> (r: Self)
        ensures
            r == self,
    {
        proof {
            use_type_invariant(self);
        }
        Compress(self.0)
    }
}

impl<T: CompressFinite> Copy for Compress<T> {

}

impl CompressFinite for () {
    type Index = crate::uint::Uint<0>;

    proof fn lemma_index_fits() {
        vstd::arithmetic::power2::lemma2_to64();
        reveal_with_fuel(crate::uint::spec_bit_len, 17);
    }
}

impl CompressFinite for bool {
    type Index = crate::uint::Uint<1>;

    proof fn lemma_index_fits() {
        vstd::arithmetic::power2::lemma2_to64();
        reveal_with_fuel(crate::uint::spec_bit_len, 17);
    }
}

impl CompressFinite for u8 {
    type Index = crate::uint::Uint<8>;

    proof fn lemma_index_fits() {
        vstd::arithmetic::power2::lemma2_to64();
        reveal_with_fuel(crate::uint::spec_bit_len, 17);
    }
}

impl CompressFinite for u16 {
    type Index = crate::uint::Uint<16>;

    proof fn lemma_index_fits() {
        vstd::arithmetic::power2::lemma2_to64();
        reveal_with_fuel(crate::uint::spec_bit_len, 17);
    }
}

} // verus!
