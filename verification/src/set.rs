//! Bitmap-backed sets: a set of a finite type's values held as one bit per
//! possible value, in the narrowest backing store that offers enough bits.

use crate::Finite;
use crate::uint::{
    Unsigned, bit_of, bit_positions, lemma_all_clear_is_zero, lemma_bit_of_high, lemma_bit_of_zero,
    lemma_clear_high_bound, lemma_popcount_extend, lemma_popcount_is_cardinality, smallest_width,
};
use vstd::prelude::*;
use vstd::arithmetic::power2::*;
use vstd::set_lib::lemma_set_intersect_union_lens;

verus! {

/// The trait required to use [`BitmapSet`] with a type: the bijection plus a
/// chosen backing store with one bit per possible value.
pub trait BitmapFinite: Finite {
    /// The backing store for the membership bits.
    type Bitmap: Unsigned;

    /// The chosen store has a bit for every value of the domain, and is the
    /// narrowest ladder width the registry offers for that many bits.
    proof fn lemma_bitmap_fits()
        ensures
            Self::spec_count() <= <Self::Bitmap as Unsigned>::spec_bits(),
            <Self::Bitmap as Unsigned>::spec_bits() == smallest_width(Self::spec_count()),
    ;
}

/// A set of values of type `T`, implemented using a bitmap: bit `i` of the
/// backing store holds whether the value at index `i` is a member. Bits at or
/// above the domain's count are always clear.
pub struct BitmapSet<T: BitmapFinite>(T::Bitmap);

impl<T: BitmapFinite> BitmapSet<T> {
    /// The raw bit pattern, as a number.
    pub closed spec fn spec_raw(self) -> nat {
        self.0.as_nat()
    }

    /// Every reachable bitmap set is valid: bits at or above the domain's
    /// count are clear. Holders of a `BitmapSet` value may recover this
    /// through `use_type_invariant`.
    #[verifier::type_invariant]
    pub open spec fn inv(self) -> bool {
        forall|i: nat|
            T::spec_count() <= i && i < <T::Bitmap as Unsigned>::spec_bits() ==> !(
            #[trigger] bit_of(self.spec_raw(), i))
    }

    /// Constructs a new [`BitmapSet`] whose initial membership is decided by
    /// asking the given function about every value of the domain, in
    /// ascending index order.
    pub fn new<F: Fn(T) -> bool>(f: F) -> (r: Self)
        requires
            T::wf(),
            forall|k: T| k.valid() ==> call_requires(f, (k,)),
        ensures
            forall|i: nat|
                i < T::spec_count() ==> call_ensures(f, (T::spec_nth(i),), #[trigger] r@.contains(
                    i,
                )),
    {
        let c = T::count();
        let mut bits = T::Bitmap::zero();
        let mut i: usize = 0;
        proof {
            T::lemma_bitmap_fits();
            assert forall|j: nat| j < <T::Bitmap as Unsigned>::spec_bits() implies !bit_of(
                bits.as_nat(),
                j,
            ) by {
                lemma_bit_of_zero(j);
            }
        }
        while i < c
            invariant
                T::wf(),
                c == T::spec_count(),
                i <= c,
                c <= <T::Bitmap as Unsigned>::spec_bits(),
                forall|k: T| k.valid() ==> call_requires(f, (k,)),
                forall|j: nat|
                    j < i ==> call_ensures(f, (T::spec_nth(j),), #[trigger] bit_of(
                        bits.as_nat(),
                        j,
                    )),
                forall|j: nat|
                    i <= j && j < <T::Bitmap as Unsigned>::spec_bits() ==> !bit_of(
                        bits.as_nat(),
                        j,
                    ),
            decreases c - i,
        {
            proof {
                T::lemma_nth_valid(i as nat);
            }
            let v = T::nth(i).unwrap();
            if f(v) {
                bits = bits.bitor(T::Bitmap::one_at(i));
            }
            i = i + 1;
        }
        let r = BitmapSet(bits);
        proof {
            assert forall|i: nat| i < T::spec_count() implies call_ensures(
                f,
                (T::spec_nth(i),),
                #[trigger] r@.contains(i),
            ) by {
                assert(r@.contains(i) == bit_of(bits.as_nat(), i));
            }
        }
        r
    }

    /// The set of all possible values of `T`.
    pub fn all() -> (r: Self)
        requires
            T::wf(),
        ensures
            r@ == Set::new(|i: nat| i < T::spec_count()),
    {
        proof {
            T::lemma_bitmap_fits();
        }
        let r = BitmapSet(T::Bitmap::ones(T::count()));
        proof {
            assert(r@ =~= Set::new(|i: nat| i < T::spec_count()));
        }
        r
    }

    /// The empty set.
    pub fn none() -> (r: Self)
        ensures
            r@ == Set::<nat>::empty(),
    {
        let bits = T::Bitmap::zero();
        proof {
            assert forall|j: nat| !(#[trigger] bit_of(bits.as_nat(), j)) by {
                lemma_bit_of_zero(j);
            }
        }
        let r = BitmapSet(bits);
        proof {
            assert(r@ =~= Set::<nat>::empty());
        }
        r
    }

    /// The set consisting of only the given value.
    pub fn only(value: T) -> (r: Self)
        requires
            T::wf(),
            value.valid(),
        ensures
            r@ == Set::<nat>::empty().insert(value.spec_index_of()),
    {
        proof {
            T::lemma_bitmap_fits();
            T::lemma_index_in_range(value);
        }
        let r = BitmapSet(T::Bitmap::one_at(T::index_of(value)));
        proof {
            assert(r@ =~= Set::<nat>::empty().insert(value.spec_index_of()));
        }
        r
    }

    /// The number of values in this set.
    pub fn size(&self) -> (r: usize)
        ensures
            r == self@.len(),
    {
        proof {
            use_type_invariant(self);
            T::lemma_bitmap_fits();
            lemma_popcount_extend(
                self.spec_raw(),
                T::spec_count(),
                <T::Bitmap as Unsigned>::spec_bits(),
            );
            lemma_popcount_is_cardinality(self.spec_raw(), T::spec_count());
            assert(self@ =~= bit_positions(self.spec_raw(), T::spec_count()));
        }
        self.0.count_ones()
    }

    /// Determines whether this is the empty set.
    pub fn is_none(&self) -> (r: bool)
        ensures
            r == (self@ == Set::<nat>::empty()),
    {
        let r = self.0.equals(T::Bitmap::zero());
        proof {
            use_type_invariant(self);
            if self.spec_raw() == 0 {
                assert forall|j: nat| !bit_of(self.spec_raw(), j) by {
                    lemma_bit_of_zero(j);
                }
                assert(self@ =~= Set::<nat>::empty());
            } else {
                T::lemma_bitmap_fits();
                self.0.lemma_as_nat_bound();
                if self@ == Set::<nat>::empty() {
                    assert forall|j: nat|
                        j < <T::Bitmap as Unsigned>::spec_bits() implies !bit_of(
                        self.spec_raw(),
                        j,
                    ) by {
                        if j < T::spec_count() {
                            assert(!self@.contains(j));
                        }
                    }
                    lemma_all_clear_is_zero(
                        self.spec_raw(),
                        <T::Bitmap as Unsigned>::spec_bits(),
                    );
                }
            }
        }
        r
    }
}

impl<T: BitmapFinite> BitmapSet<T> {
    /// The intersection of the two sets.
    pub fn and(self, rhs: Self) -> (r: Self)
        ensures
            r@ == self@.intersect(rhs@),
    {
        proof {
            use_type_invariant(&self);
            use_type_invariant(&rhs);
            T::lemma_bitmap_fits();
        }
        let bits = self.0.bitand(rhs.0);
        proof {
            assert forall|i: nat|
                T::spec_count() <= i && i < <T::Bitmap as Unsigned>::spec_bits() implies !(
            #[trigger] bit_of(bits.as_nat(), i)) by {
                assert(!bit_of(self.spec_raw(), i));
                assert(!bit_of(rhs.spec_raw(), i));
            }
        }
        let r = BitmapSet(bits);
        proof {
            assert forall|i: nat| #[trigger] r@.contains(i) == self@.intersect(rhs@).contains(i) by {
                if i < T::spec_count() {
                    assert(bit_of(bits.as_nat(), i) == (bit_of(self.spec_raw(), i) && bit_of(rhs.spec_raw(), i)));
                }
            }
            assert(r@ =~= self@.intersect(rhs@));
        }
        r
    }

    /// The union of the two sets.
    pub fn or(self, rhs: Self) -> (r: Self)
        ensures
            r@ == self@.union(rhs@),
    {
        proof {
            use_type_invariant(&self);
            use_type_invariant(&rhs);
            T::lemma_bitmap_fits();
        }
        let bits = self.0.bitor(rhs.0);
        proof {
            assert forall|i: nat|
                T::spec_count() <= i && i < <T::Bitmap as Unsigned>::spec_bits() implies !(
            #[trigger] bit_of(bits.as_nat(), i)) by {
                assert(!bit_of(self.spec_raw(), i));
                assert(!bit_of(rhs.spec_raw(), i));
            }
        }
        let r = BitmapSet(bits);
        proof {
            assert forall|i: nat| #[trigger] r@.contains(i) == self@.union(rhs@).contains(i) by {
                if i < T::spec_count() {
                    assert(bit_of(bits.as_nat(), i) == (bit_of(self.spec_raw(), i) || bit_of(rhs.spec_raw(), i)));
                }
            }
            assert(r@ =~= self@.union(rhs@));
        }
        r
    }

    /// The symmetric difference of the two sets.
    pub fn xor(self, rhs: Self) -> (r: Self)
        ensures
            r@ == self@.difference(rhs@).union(rhs@.difference(self@)),
    {
        proof {
            use_type_invariant(&self);
            use_type_invariant(&rhs);
            T::lemma_bitmap_fits();
        }
        let bits = self.0.bitxor(rhs.0);
        proof {
            assert forall|i: nat|
                T::spec_count() <= i && i < <T::Bitmap as Unsigned>::spec_bits() implies !(
            #[trigger] bit_of(bits.as_nat(), i)) by {
                assert(!bit_of(self.spec_raw(), i));
                assert(!bit_of(rhs.spec_raw(), i));
            }
        }
        let r = BitmapSet(bits);
        proof {
            assert forall|i: nat| #[trigger] r@.contains(i) == self@.difference(rhs@).union(rhs@.difference(self@)).contains(i) by {
                if i < T::spec_count() {
                    assert(bit_of(bits.as_nat(), i) == (bit_of(self.spec_raw(), i) != bit_of(rhs.spec_raw(), i)));
                }
            }
            assert(r@ =~= self@.difference(rhs@).union(rhs@.difference(self@)));
        }
        r
    }

    /// The members of this set that the other lacks.
    pub fn difference(self, rhs: Self) -> (r: Self)
        ensures
            r@ == self@.difference(rhs@),
    {
        proof {
            use_type_invariant(&self);
            use_type_invariant(&rhs);
            T::lemma_bitmap_fits();
        }
        let bits = self.0.bitand(rhs.0.complement());
        proof {
            assert forall|i: nat|
                T::spec_count() <= i && i < <T::Bitmap as Unsigned>::spec_bits() implies !(
            #[trigger] bit_of(bits.as_nat(), i)) by {
                assert(!bit_of(self.spec_raw(), i));
                assert(!bit_of(rhs.spec_raw(), i));
            }
        }
        let r = BitmapSet(bits);
        proof {
            assert forall|i: nat| #[trigger] r@.contains(i) == self@.difference(rhs@).contains(i) by {
                if i < T::spec_count() {
                    assert(bit_of(bits.as_nat(), i) == (bit_of(self.spec_raw(), i) && !bit_of(rhs.spec_raw(), i)));
                }
            }
            assert(r@ =~= self@.difference(rhs@));
        }
        r
    }

    /// Whether the two sets hold the same values.
    pub fn equals(&self, other: &Self) -> (r: bool)
        ensures
            r == (self@ == other@),
            r == (*self == *other),
    {
        proof {
            use_type_invariant(self);
            use_type_invariant(other);
        }
        let r = self.0.equals(other.0);
        proof {
            self.0.lemma_as_nat_bound();
            other.0.lemma_as_nat_bound();
            self.0.lemma_as_nat_injective(other.0);
            if r {
                assert(self@ =~= other@);
            } else {
                let w = <T::Bitmap as Unsigned>::spec_bits();
                if self@ == other@ {
                    assert forall|j: nat| j < w implies bit_of(self.spec_raw(), j) == bit_of(
                        other.spec_raw(),
                        j,
                    ) by {
                        if j < T::spec_count() {
                            assert(self@.contains(j) == other@.contains(j));
                        }
                    }
                    crate::uint::lemma_bits_extensional(self.spec_raw(), other.spec_raw(), w);
                }
            }
        }
        r
    }

    /// The total order of sets: comparison of the raw bit patterns.
    pub fn lt(&self, other: &Self) -> (r: bool)
        ensures
            r == (self.spec_raw() < other.spec_raw()),
    {
        self.0.lt(other.0)
    }

    /// Removes and returns the member with the lowest index, in `T`'s own
    /// order the least member, or returns `None` on an empty set.
    pub fn next(&mut self) -> (r: Option<T>)
        requires
            T::wf(),
        ensures
            match r {
                Some(v) => {
                    &&& v.valid()
                    &&& v == T::spec_nth(v.spec_index_of())
                    &&& old(self)@.contains(v.spec_index_of())
                    &&& forall|j: nat| j < v.spec_index_of() ==> !old(self)@.contains(j)
                    &&& final(self)@ == old(self)@.remove(v.spec_index_of())
                },
                None => old(self)@ == Set::<nat>::empty() && *final(self) == *old(self),
            },
    {
        proof {
            use_type_invariant(&*self);
            T::lemma_bitmap_fits();
        }
        match self.0.first_one() {
            Some(i) => {
                proof {
                    assert((i as nat) < T::spec_count()) by {
                        assert(bit_of(self.spec_raw(), i as nat));
                    }
                }
                let bits = self.0.bitand(T::Bitmap::one_at(i).complement());
                proof {
                    T::lemma_nth_valid(i as nat);
                    T::lemma_nth_index_of(i as nat);
                    assert forall|j: nat|
                        T::spec_count() <= j && j < <T::Bitmap as Unsigned>::spec_bits() implies !(
                    #[trigger] bit_of(bits.as_nat(), j)) by {
                        assert(!bit_of(self.spec_raw(), j));
                    }
                }
                self.0 = bits;
                let v = T::nth(i).unwrap();
                proof {
                    assert(self@ =~= old(self)@.remove(i as nat));
                }
                Some(v)
            },
            None => {
                proof {
                    assert forall|j: nat| !(#[trigger] bit_of(self.spec_raw(), j)) by {
                        lemma_bit_of_zero(j);
                    }
                    assert(self@ =~= Set::<nat>::empty());
                }
                None
            },
        }
    }

    /// Removes and returns the member with the highest index, in `T`'s own
    /// order the greatest member, or returns `None` on an empty set.
    pub fn next_back(&mut self) -> (r: Option<T>)
        requires
            T::wf(),
        ensures
            match r {
                Some(v) => {
                    &&& v.valid()
                    &&& v == T::spec_nth(v.spec_index_of())
                    &&& old(self)@.contains(v.spec_index_of())
                    &&& forall|j: nat|
                        v.spec_index_of() < j && j < T::spec_count() ==> !old(self)@.contains(j)
                    &&& final(self)@ == old(self)@.remove(v.spec_index_of())
                },
                None => old(self)@ == Set::<nat>::empty() && *final(self) == *old(self),
            },
    {
        proof {
            use_type_invariant(&*self);
            T::lemma_bitmap_fits();
        }
        match self.0.last_one() {
            Some(i) => {
                proof {
                    assert((i as nat) < T::spec_count()) by {
                        assert(bit_of(self.spec_raw(), i as nat));
                    }
                }
                let bits = self.0.bitand(T::Bitmap::one_at(i).complement());
                proof {
                    T::lemma_nth_valid(i as nat);
                    T::lemma_nth_index_of(i as nat);
                    assert forall|j: nat|
                        T::spec_count() <= j && j < <T::Bitmap as Unsigned>::spec_bits() implies !(
                    #[trigger] bit_of(bits.as_nat(), j)) by {
                        assert(!bit_of(self.spec_raw(), j));
                    }
                }
                self.0 = bits;
                let v = T::nth(i).unwrap();
                proof {
                    assert(self@ =~= old(self)@.remove(i as nat));
                }
                Some(v)
            },
            None => {
                proof {
                    assert forall|j: nat| !(#[trigger] bit_of(self.spec_raw(), j)) by {
                        lemma_bit_of_zero(j);
                    }
                    assert(self@ =~= Set::<nat>::empty());
                }
                None
            },
        }
    }
}

/// A set of values of type `T`, keyed through `T`'s bijection.
pub trait SetOps<T: Finite> {
    /// The members' indices.
    spec fn members(&self) -> Set<nat>;

    /// Determines whether the set contains the given value.
    fn contains(&self, value: T) -> (r: bool)
        requires
            T::wf(),
            value.valid(),
        ensures
            r == self.members().contains(value.spec_index_of()),
    ;

    /// Ensures that the set holds the given value.
    fn insert(&mut self, value: T)
        requires
            T::wf(),
            value.valid(),
        ensures
            final(self).members() == old(self).members().insert(value.spec_index_of()),
    ;

    /// Ensures that the set excludes the given value.
    fn exclude(&mut self, value: T)
        requires
            T::wf(),
            value.valid(),
        ensures
            final(self).members() == old(self).members().remove(value.spec_index_of()),
    ;
}

impl<T: BitmapFinite> SetOps<T> for BitmapSet<T> {
    open spec fn members(&self) -> Set<nat> {
        self.view()
    }

    fn contains(&self, value: T) -> (r: bool) {
        proof {
            use_type_invariant(self);
            T::lemma_bitmap_fits();
            T::lemma_index_in_range(value);
        }
        self.0.bit_at(T::index_of(value))
    }

    fn insert(&mut self, value: T) {
        proof {
            use_type_invariant(&*self);
            T::lemma_bitmap_fits();
            T::lemma_index_in_range(value);
        }
        let bits = self.0.bitor(T::Bitmap::one_at(T::index_of(value)));
        proof {
            assert forall|i: nat|
                T::spec_count() <= i && i < <T::Bitmap as Unsigned>::spec_bits() implies !(
            #[trigger] bit_of(bits.as_nat(), i)) by {
                assert(!bit_of(self.spec_raw(), i));
            }
        }
        self.0 = bits;
        proof {
            assert(self@ =~= old(self)@.insert(value.spec_index_of()));
        }
    }

    fn exclude(&mut self, value: T) {
        proof {
            use_type_invariant(&*self);
            T::lemma_bitmap_fits();
            T::lemma_index_in_range(value);
        }
        let bits = self.0.bitand(T::Bitmap::one_at(T::index_of(value)).complement());
        proof {
            assert forall|i: nat|
                T::spec_count() <= i && i < <T::Bitmap as Unsigned>::spec_bits() implies !(
            #[trigger] bit_of(bits.as_nat(), i)) by {
                assert(!bit_of(self.spec_raw(), i));
            }
        }
        self.0 = bits;
        proof {
            assert(self@ =~= old(self)@.remove(value.spec_index_of()));
        }
    }
}

/// Membership may equally be asked with a compressed key: the stored index
/// already names the slot, so no expansion is needed.
impl<T: BitmapFinite + crate::compress::CompressFinite> SetOps<crate::compress::Compress<T>>
    for BitmapSet<T> {
    open spec fn members(&self) -> Set<nat> {
        self.view()
    }

    fn contains(&self, value: crate::compress::Compress<T>) -> (r: bool) {
        proof {
            use_type_invariant(self);
            T::lemma_bitmap_fits();
        }
        self.0.bit_at(crate::compress::Compress::<T>::index_of(value))
    }

    fn insert(&mut self, value: crate::compress::Compress<T>) {
        proof {
            use_type_invariant(&*self);
            T::lemma_bitmap_fits();
        }
        let bits = self.0.bitor(T::Bitmap::one_at(crate::compress::Compress::<T>::index_of(value)));
        proof {
            assert forall|i: nat|
                T::spec_count() <= i && i < <T::Bitmap as Unsigned>::spec_bits() implies !(
            #[trigger] bit_of(bits.as_nat(), i)) by {
                assert(!bit_of(self.spec_raw(), i));
            }
        }
        self.0 = bits;
        proof {
            assert(self@ =~= old(self)@.insert(value.spec_index_of()));
        }
    }

    fn exclude(&mut self, value: crate::compress::Compress<T>) {
        proof {
            use_type_invariant(&*self);
            T::lemma_bitmap_fits();
        }
        let bits = self.0.bitand(
            T::Bitmap::one_at(crate::compress::Compress::<T>::index_of(value)).complement(),
        );
        proof {
            assert forall|i: nat|
                T::spec_count() <= i && i < <T::Bitmap as Unsigned>::spec_bits() implies !(
            #[trigger] bit_of(bits.as_nat(), i)) by {
                assert(!bit_of(self.spec_raw(), i));
            }
        }
        self.0 = bits;
        proof {
            assert(self@ =~= old(self)@.remove(value.spec_index_of()));
        }
    }
}

impl<T: BitmapFinite> Default for BitmapSet<T> {
    /// The empty set.
    fn default() -> (r: Self)
        ensures
            r@ == Set::<nat>::empty(),
    {
        Self::none()
    }
}

impl<T: BitmapFinite> Clone for BitmapSet<T> {
    fn clone(&self) -> (r: Self)
        ensures
            r == self,
    {
        proof {
            use_type_invariant(self);
        }
        BitmapSet(self.0)
    }
}

impl<T: BitmapFinite> Copy for BitmapSet<T> {

}

impl<T: BitmapFinite> View for BitmapSet<T> {
    type V = Set<nat>;

    /// The members' indices: the set is read as the indices, under `T`'s
    /// bijection, of the values it holds.
    open spec fn view(&self) -> Set<nat> {
        Set::new(|i: nat| i < T::spec_count() && bit_of(self.spec_raw(), i))
    }
}

/// A bitmap set is itself finite over its own `2^count`-sized domain: its
/// index is its raw bit pattern, so a set nests as a compressed value or a
/// map key.
impl<T: BitmapFinite> Finite for BitmapSet<T> {
    open spec fn wf() -> bool {
        T::wf() && pow2(T::spec_count()) <= usize::MAX
    }

    open spec fn spec_count() -> nat {
        pow2(T::spec_count())
    }

    open spec fn spec_index_of(self) -> nat {
        self.spec_raw()
    }

    closed spec fn spec_nth(i: nat) -> BitmapSet<T> {
        BitmapSet(T::Bitmap::spec_from_nat(i))
    }

    open spec fn spec_before(self, other: Self) -> bool {
        self.spec_raw() < other.spec_raw()
    }

    open spec fn valid(self) -> bool {
        self.inv()
    }

    proof fn lemma_count_fits() {
    }

    proof fn lemma_index_in_range(v: Self) {
        T::lemma_bitmap_fits();
        v.0.lemma_as_nat_bound();
        lemma_clear_high_bound(
            v.spec_raw(),
            T::spec_count(),
            <T::Bitmap as Unsigned>::spec_bits(),
        );
    }

    proof fn lemma_nth_valid(i: nat) {
        T::lemma_bitmap_fits();
        Self::lemma_pow2_le();
        T::Bitmap::lemma_spec_from_nat(i);
        assert forall|j: nat|
            T::spec_count() <= j && j < <T::Bitmap as Unsigned>::spec_bits() implies !(
        #[trigger] bit_of(Self::spec_nth(i).spec_raw(), j)) by {
            if T::spec_count() < j {
                lemma_pow2_strictly_increases(T::spec_count(), j);
            }
            lemma_bit_of_high(i, j, j);
        }
    }

    proof fn lemma_nth_index_of(i: nat) {
        T::lemma_bitmap_fits();
        Self::lemma_pow2_le();
        T::Bitmap::lemma_spec_from_nat(i);
    }

    proof fn lemma_index_of_nth(v: Self) {
        T::lemma_bitmap_fits();
        Self::lemma_pow2_le();
        Self::lemma_index_in_range(v);
        T::Bitmap::lemma_spec_from_nat(v.spec_raw());
        T::Bitmap::lemma_as_nat_injective(T::Bitmap::spec_from_nat(v.spec_raw()), v.0);
    }

    proof fn lemma_order_iso(a: Self, b: Self) {
    }

    fn count() -> (n: usize) {
        let tc = T::count();
        let mut r: usize = 1;
        let mut i: usize = 0;
        proof {
            lemma2_to64();
        }
        while i < tc
            invariant
                i <= tc,
                tc == T::spec_count(),
                r == pow2(i as nat),
                pow2(tc as nat) <= usize::MAX,
            decreases tc - i,
        {
            proof {
                lemma_pow2_unfold((i + 1) as nat);
                if i + 1 < tc {
                    lemma_pow2_strictly_increases((i + 1) as nat, tc as nat);
                }
            }
            r = r * 2;
            i = i + 1;
        }
        r
    }

    fn index_of(value: Self) -> (i: usize) {
        proof {
            Self::lemma_index_in_range(value);
            Self::lemma_count_fits();
        }
        value.0.to_usize()
    }

    fn nth(index: usize) -> (r: Option<BitmapSet<T>>) {
        if index < Self::count() {
            proof {
                T::lemma_bitmap_fits();
                Self::lemma_pow2_le();
                T::Bitmap::lemma_spec_from_nat(index as nat);
            }
            let stored = T::Bitmap::from_usize_unchecked(index);
            proof {
                T::Bitmap::lemma_as_nat_injective(stored, T::Bitmap::spec_from_nat(index as nat));
                assert forall|j: nat|
                    T::spec_count() <= j && j < <T::Bitmap as Unsigned>::spec_bits() implies !(
                #[trigger] bit_of(stored.as_nat(), j)) by {
                    if T::spec_count() < j {
                        lemma_pow2_strictly_increases(T::spec_count(), j);
                    }
                    lemma_bit_of_high(stored.as_nat(), j, j);
                }
            }
            Some(BitmapSet(stored))
        } else {
            None
        }
    }
}

impl<T: BitmapFinite> BitmapSet<T> {
    /// The domain of raw patterns fits the backing store.
    proof fn lemma_pow2_le()
        ensures
            pow2(T::spec_count()) <= pow2(<T::Bitmap as Unsigned>::spec_bits()),
    {
        T::lemma_bitmap_fits();
        if T::spec_count() < <T::Bitmap as Unsigned>::spec_bits() {
            lemma_pow2_strictly_increases(
                T::spec_count(),
                <T::Bitmap as Unsigned>::spec_bits(),
            );
        }
    }
}

/// Set algebra: members of the intersection joined with members of the
/// symmetric difference are exactly the members of the union.
pub proof fn lemma_intersect_xor_is_union<T: BitmapFinite>(a: BitmapSet<T>, b: BitmapSet<T>)
    ensures
        a@.intersect(b@).union(a@.difference(b@).union(b@.difference(a@))) == a@.union(b@),
{
    assert(a@.intersect(b@).union(a@.difference(b@).union(b@.difference(a@))) =~= a@.union(b@));
}

/// Set algebra: taking members away is intersecting with the complement
/// within the domain.
pub proof fn lemma_difference_is_intersect_complement<T: BitmapFinite>(
    a: BitmapSet<T>,
    b: BitmapSet<T>,
)
    ensures
        a@.difference(b@) == a@.intersect(Set::new(|i: nat| i < T::spec_count()).difference(b@)),
{
    assert(a@.difference(b@) =~= a@.intersect(
        Set::new(|i: nat| i < T::spec_count()).difference(b@),
    ));
}

/// Set algebra: the sizes of the union and of the intersection together
/// count each operand's members once.
pub proof fn lemma_union_intersect_sizes<T: BitmapFinite>(a: BitmapSet<T>, b: BitmapSet<T>)
    ensures
        a@.union(b@).len() + a@.intersect(b@).len() == a@.len() + b@.len(),
{
    lemma_popcount_is_cardinality(a.spec_raw(), T::spec_count());
    lemma_popcount_is_cardinality(b.spec_raw(), T::spec_count());
    assert(a@ =~= bit_positions(a.spec_raw(), T::spec_count()));
    assert(b@ =~= bit_positions(b.spec_raw(), T::spec_count()));
    lemma_set_intersect_union_lens(a@, b@);
    assert(a@ + b@ =~= a@.union(b@));
}

impl BitmapFinite for () {
    type Bitmap = crate::uint::Uint<1>;

    proof fn lemma_bitmap_fits() {
    }
}

impl BitmapFinite for bool {
    type Bitmap = crate::uint::Uint<2>;

    proof fn lemma_bitmap_fits() {
    }
}

} // verus!
