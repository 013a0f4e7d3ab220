//! Order-preserving bijections between finite types and `[0, COUNT)`.
//!
//! Every type implementing [`Finite`] carries a cardinality and a proved
//! bijection between its values and the integers below that cardinality,
//! homomorphic to the type's total order. On top of the bijection the crate
//! builds a minimal-width compressed value ([`compress::Compress`]), a dense
//! total map ([`map::ArrayMap`]), and a bitmap-backed set
//! ([`set::BitmapSet`]), each with contracts stated over the bijection.
//!
//! Two predicates recur in the contracts. `T::wf()` says that an
//! instantiation's cardinality fits the machine word; composed instantiations
//! (options, pairs, sets as domains) restate it for their parts, so that a
//! cardinality overflowing the word shows up as an unprovable obligation at
//! the use site rather than at run time. `v.valid()` says that a
//! specification-level value stands for one of the type's constructible
//! values; every value a program can hold is valid, and for the wrapper types
//! whose raw content could in principle exceed the domain, a type invariant
//! hands validity back to the holder.

pub mod compress;
pub mod map;
pub mod sample;
pub mod set;
pub mod uint;

use vstd::prelude::*;

verus! {

/// The number of values of a type, with a proved, order-preserving 1-to-1
/// mapping between the integers `[0, spec_count())` and those values.
///
/// `spec_count`, `spec_index_of`, `spec_nth` and `spec_before` form the
/// mathematical model; the proof obligations below tie them together and the
/// executable `count`, `index_of` and `nth` are proved against them.
///
/// `wf()` says that the cardinality is small enough for indices to be carried
/// in a `usize`; composite instances (options, pairs) restate it for their
/// components.
pub trait Finite: Sized {
    /// The instantiation is usable: its count fits the machine word.
    spec fn wf() -> bool;

    /// The number of values of this type.
    spec fn spec_count() -> nat;

    /// The index of a value under the bijection.
    spec fn spec_index_of(self) -> nat;

    /// The value at an index under the bijection (meaningful below
    /// `spec_count()`).
    spec fn spec_nth(i: nat) -> Self;

    /// The type's total order.
    spec fn spec_before(self, other: Self) -> bool;

    /// Whether a specification-level value stands for one of the type's
    /// `spec_count()` constructible values. Every value a program can hold is
    /// valid; the predicate only cuts away ill-formed ghost values.
    spec fn valid(self) -> bool;

    /// A well-formed instantiation has a machine-representable count.
    proof fn lemma_count_fits()
        requires
            Self::wf(),
        ensures
            Self::spec_count() <= usize::MAX,
    ;

    /// Every value's index lies below the count.
    proof fn lemma_index_in_range(v: Self)
        requires
            v.valid(),
        ensures
            v.spec_index_of() < Self::spec_count(),
    ;

    /// Every index below the count stands for a value.
    proof fn lemma_nth_valid(i: nat)
        requires
            i < Self::spec_count(),
        ensures
            Self::spec_nth(i).valid(),
    ;

    /// The index of the value at index `i` is `i` itself.
    proof fn lemma_nth_index_of(i: nat)
        requires
            i < Self::spec_count(),
        ensures
            Self::spec_nth(i).spec_index_of() == i,
    ;

    /// The value at a value's index is that value.
    proof fn lemma_index_of_nth(v: Self)
        requires
            v.valid(),
        ensures
            Self::spec_nth(v.spec_index_of()) == v,
    ;

    /// The bijection is homomorphic to the type's order.
    proof fn lemma_order_iso(a: Self, b: Self)
        requires
            a.valid(),
            b.valid(),
        ensures
            a.spec_before(b) <==> a.spec_index_of() < b.spec_index_of(),
    ;

    /// The number of values of this type.
    fn count() -> (n: usize)
        requires
            Self::wf(),
        ensures
            n == Self::spec_count(),
    ;

    /// The unique integer representation of the given value.
    fn index_of(value: Self) -> (i: usize)
        requires
            Self::wf(),
            value.valid(),
        ensures
            i == value.spec_index_of(),
            i < Self::spec_count(),
    ;

    /// The value with the given index, or `None` if the index is out of
    /// bounds.
    fn nth(index: usize) -> (r: Option<Self>)
        requires
            Self::wf(),
        ensures
            index < Self::spec_count() ==> r == Some(Self::spec_nth(index as nat)),
            index >= Self::spec_count() ==> r is None,
    ;
}

impl Finite for () {
    open spec fn wf() -> bool {
        true
    }

    open spec fn spec_count() -> nat {
        1
    }

    open spec fn spec_index_of(self) -> nat {
        0
    }

    open spec fn spec_nth(i: nat) -> () {
        ()
    }

    open spec fn spec_before(self, other: Self) -> bool {
        false
    }

    open spec fn valid(self) -> bool {
        true
    }

    proof fn lemma_count_fits() {
    }

    proof fn lemma_index_in_range(v: Self) {
    }

    proof fn lemma_nth_valid(i: nat) {
    }

    proof fn lemma_nth_index_of(i: nat) {
    }

    proof fn lemma_index_of_nth(v: Self) {
    }

    proof fn lemma_order_iso(a: Self, b: Self) {
    }

    fn count() -> usize {
        1
    }

    fn index_of(value: Self) -> usize {
        0
    }

    fn nth(index: usize) -> Option<()> {
        if index == 0 {
            Some(())
        } else {
            None
        }
    }
}

impl Finite for bool {
    open spec fn wf() -> bool {
        true
    }

    open spec fn spec_count() -> nat {
        2
    }

    open spec fn spec_index_of(self) -> nat {
        if self {
            1
        } else {
            0
        }
    }

    open spec fn spec_nth(i: nat) -> bool {
        i == 1
    }

    open spec fn spec_before(self, other: Self) -> bool {
        !self && other
    }

    open spec fn valid(self) -> bool {
        true
    }

    proof fn lemma_count_fits() {
    }

    proof fn lemma_index_in_range(v: Self) {
    }

    proof fn lemma_nth_valid(i: nat) {
    }

    proof fn lemma_nth_index_of(i: nat) {
    }

    proof fn lemma_index_of_nth(v: Self) {
    }

    proof fn lemma_order_iso(a: Self, b: Self) {
    }

    fn count() -> usize {
        2
    }

    fn index_of(value: Self) -> usize {
        if value {
            1
        } else {
            0
        }
    }

    fn nth(index: usize) -> Option<bool> {
        if index == 0 {
            Some(false)
        } else if index == 1 {
            Some(true)
        } else {
            None
        }
    }
}

impl Finite for u8 {
    open spec fn wf() -> bool {
        true
    }

    open spec fn spec_count() -> nat {
        256
    }

    open spec fn spec_index_of(self) -> nat {
        self as nat
    }

    open spec fn spec_nth(i: nat) -> u8 {
        i as u8
    }

    open spec fn spec_before(self, other: Self) -> bool {
        self < other
    }

    open spec fn valid(self) -> bool {
        true
    }

    proof fn lemma_count_fits() {
    }

    proof fn lemma_index_in_range(v: Self) {
    }

    proof fn lemma_nth_valid(i: nat) {
    }

    proof fn lemma_nth_index_of(i: nat) {
    }

    proof fn lemma_index_of_nth(v: Self) {
    }

    proof fn lemma_order_iso(a: Self, b: Self) {
    }

    fn count() -> usize {
        256
    }

    fn index_of(value: Self) -> usize {
        value as usize
    }

    fn nth(index: usize) -> Option<u8> {
        if index < 256 {
            Some(index as u8)
        } else {
            None
        }
    }
}

impl Finite for u16 {
    open spec fn wf() -> bool {
        true
    }

    open spec fn spec_count() -> nat {
        65536
    }

    open spec fn spec_index_of(self) -> nat {
        self as nat
    }

    open spec fn spec_nth(i: nat) -> u16 {
        i as u16
    }

    open spec fn spec_before(self, other: Self) -> bool {
        self < other
    }

    open spec fn valid(self) -> bool {
        true
    }

    proof fn lemma_count_fits() {
    }

    proof fn lemma_index_in_range(v: Self) {
    }

    proof fn lemma_nth_valid(i: nat) {
    }

    proof fn lemma_nth_index_of(i: nat) {
    }

    proof fn lemma_index_of_nth(v: Self) {
    }

    proof fn lemma_order_iso(a: Self, b: Self) {
    }

    fn count() -> usize {
        65536
    }

    fn index_of(value: Self) -> usize {
        value as usize
    }

    fn nth(index: usize) -> Option<u16> {
        if index < 65536 {
            Some(index as u16)
        } else {
            None
        }
    }
}

/// Optional composition: index 0 stands for `None`, and the indices
/// `1..1 + T::spec_count()` carry `T`'s values shifted up by one, so that the
/// absent value sorts before every present one.
impl<T: Finite> Finite for Option<T> {
    open spec fn wf() -> bool {
        T::wf() && 1 + T::spec_count() <= usize::MAX
    }

    open spec fn spec_count() -> nat {
        1 + T::spec_count()
    }

    open spec fn spec_index_of(self) -> nat {
        match self {
            Option::None => 0,
            Option::Some(v) => 1 + v.spec_index_of(),
        }
    }

    open spec fn spec_nth(i: nat) -> Option<T> {
        if i == 0 {
            Option::None
        } else {
            Option::Some(T::spec_nth((i - 1) as nat))
        }
    }

    open spec fn spec_before(self, other: Self) -> bool {
        match (self, other) {
            (Option::None, Option::Some(_)) => true,
            (Option::Some(a), Option::Some(b)) => a.spec_before(b),
            _ => false,
        }
    }

    open spec fn valid(self) -> bool {
        match self {
            Option::None => true,
            Option::Some(v) => v.valid(),
        }
    }

    proof fn lemma_count_fits() {
    }

    proof fn lemma_index_in_range(v: Self) {
        match v {
            Option::None => {
            },
            Option::Some(inner) => {
                T::lemma_index_in_range(inner);
            },
        }
    }

    proof fn lemma_nth_valid(i: nat) {
        if i != 0 {
            T::lemma_nth_valid((i - 1) as nat);
        }
    }

    proof fn lemma_nth_index_of(i: nat) {
        if i != 0 {
            T::lemma_nth_index_of((i - 1) as nat);
        }
    }

    proof fn lemma_index_of_nth(v: Self) {
        match v {
            Option::None => {
            },
            Option::Some(inner) => {
                T::lemma_index_of_nth(inner);
            },
        }
    }

    proof fn lemma_order_iso(a: Self, b: Self) {
        match (a, b) {
            (Option::Some(x), Option::Some(y)) => {
                T::lemma_order_iso(x, y);
            },
            _ => {
            },
        }
    }

    fn count() -> usize {
        1 + T::count()
    }

    fn index_of(value: Self) -> usize {
        match value {
            Option::None => 0,
            Option::Some(v) => {
                proof {
                    T::lemma_index_in_range(v);
                }
                1 + T::index_of(v)
            },
        }
    }

    fn nth(index: usize) -> Option<Option<T>> {
        if index == 0 {
            Some(None)
        } else if index < 1 + T::count() {
            Some(T::nth(index - 1))
        } else {
            None
        }
    }
}

/// Pair composition: row-major mixed-radix encoding. The first component
/// varies slowest, so the index of `(a, b)` is
/// `index_of(a) * B::spec_count() + index_of(b)` and the order of indices is
/// the lexicographic order on pairs.
impl<A: Finite, B: Finite> Finite for (A, B) {
    open spec fn wf() -> bool {
        A::wf() && B::wf() && A::spec_count() * B::spec_count() <= usize::MAX
    }

    open spec fn spec_count() -> nat {
        A::spec_count() * B::spec_count()
    }

    open spec fn spec_index_of(self) -> nat {
        self.0.spec_index_of() * B::spec_count() + self.1.spec_index_of()
    }

    open spec fn spec_nth(i: nat) -> (A, B) {
        (A::spec_nth(i / B::spec_count()), B::spec_nth(i % B::spec_count()))
    }

    open spec fn spec_before(self, other: Self) -> bool {
        self.0.spec_before(other.0) || (self.0 == other.0 && self.1.spec_before(other.1))
    }

    open spec fn valid(self) -> bool {
        self.0.valid() && self.1.valid()
    }

    proof fn lemma_count_fits() {
    }

    proof fn lemma_index_in_range(v: Self) {
        A::lemma_index_in_range(v.0);
        B::lemma_index_in_range(v.1);
        lemma_radix_bound(
            v.0.spec_index_of(),
            v.1.spec_index_of(),
            A::spec_count(),
            B::spec_count(),
        );
    }

    proof fn lemma_nth_valid(i: nat) {
        let bc = B::spec_count();
        if bc == 0 {
            assert(A::spec_count() * 0 == 0);
        }
        vstd::arithmetic::div_mod::lemma_mod_bound(i as int, bc as int);
        assert((i / bc) < A::spec_count()) by (nonlinear_arith)
            requires
                bc > 0,
                i < A::spec_count() * bc,
        ;
        A::lemma_nth_valid(i / bc);
        B::lemma_nth_valid(i % bc);
    }

    proof fn lemma_nth_index_of(i: nat) {
        let bc = B::spec_count();
        if bc == 0 {
            assert(A::spec_count() * 0 == 0);
        }
        let q = i / bc;
        let r = i % bc;
        vstd::arithmetic::div_mod::lemma_mod_bound(i as int, bc as int);
        assert(q < A::spec_count()) by (nonlinear_arith)
            requires
                bc > 0,
                i < A::spec_count() * bc,
                q == i / bc,
        ;
        A::lemma_nth_index_of(q);
        B::lemma_nth_index_of(r);
        vstd::arithmetic::div_mod::lemma_fundamental_div_mod(i as int, bc as int);
        vstd::arithmetic::mul::lemma_mul_is_commutative(bc as int, q as int);
    }

    proof fn lemma_index_of_nth(v: Self) {
        let bc = B::spec_count();
        let ia = v.0.spec_index_of();
        let ib = v.1.spec_index_of();
        B::lemma_index_in_range(v.1);
        vstd::arithmetic::div_mod::lemma_fundamental_div_mod_converse(
            (ia * bc + ib) as int,
            bc as int,
            ia as int,
            ib as int,
        );
        A::lemma_index_of_nth(v.0);
        B::lemma_index_of_nth(v.1);
    }

    proof fn lemma_order_iso(a: Self, b: Self) {
        let bc = B::spec_count();
        let ia0 = a.0.spec_index_of();
        let ia1 = a.1.spec_index_of();
        let ib0 = b.0.spec_index_of();
        let ib1 = b.1.spec_index_of();
        A::lemma_order_iso(a.0, b.0);
        B::lemma_order_iso(a.1, b.1);
        B::lemma_index_in_range(a.1);
        B::lemma_index_in_range(b.1);
        if ia0 < ib0 {
            assert(ia0 * bc + ia1 < ib0 * bc + ib1) by (nonlinear_arith)
                requires
                    ia0 < ib0,
                    ia1 < bc,
            ;
        } else if ia0 > ib0 {
            assert(ia0 * bc + ia1 > ib0 * bc + ib1) by (nonlinear_arith)
                requires
                    ia0 > ib0,
                    ib1 < bc,
            ;
        } else {
            A::lemma_index_of_nth(a.0);
            A::lemma_index_of_nth(b.0);
            assert(a.0 == b.0);
        }
    }

    fn count() -> usize {
        A::count() * B::count()
    }

    fn index_of(value: Self) -> usize {
        proof {
            Self::lemma_index_in_range(value);
            A::lemma_index_in_range(value.0);
            B::lemma_index_in_range(value.1);
        }
        A::index_of(value.0) * B::count() + B::index_of(value.1)
    }

    fn nth(index: usize) -> Option<(A, B)> {
        let ac = A::count();
        let bc = B::count();
        if index < ac * bc {
            proof {
                if bc == 0 {
                    assert(A::spec_count() * 0 == 0);
                }
                Self::lemma_nth_index_of(index as nat);
                assert((index as nat) / B::spec_count() < A::spec_count()) by (nonlinear_arith)
                    requires
                        B::spec_count() > 0,
                        (index as nat) < A::spec_count() * B::spec_count(),
                ;
                vstd::arithmetic::div_mod::lemma_mod_bound(index as int, bc as int);
            }
            let a = A::nth(index / bc);
            let b = B::nth(index % bc);
            Some((a.unwrap(), b.unwrap()))
        } else {
            None
        }
    }
}

/// Bijection completeness: the value standing at any index below the count
/// maps back to exactly that index.
pub proof fn lemma_bijection_completeness<T: Finite>(i: nat)
    requires
        i < T::spec_count(),
    ensures
        T::spec_nth(i).spec_index_of() == i,
{
    T::lemma_nth_index_of(i);
}

/// Round trip: the value standing at a value's own index is that value, so
/// storing a value as its index loses nothing.
pub proof fn lemma_index_round_trip<T: Finite>(v: T)
    requires
        v.valid(),
    ensures
        T::spec_nth(v.spec_index_of()) == v,
{
    T::lemma_index_of_nth(v);
}

/// Distinct values have distinct indices, so a write to one key's slot never
/// touches another key's.
pub proof fn lemma_index_of_injective<T: Finite>(a: T, b: T)
    requires
        a.valid(),
        b.valid(),
        a.spec_index_of() == b.spec_index_of(),
    ensures
        a == b,
{
    T::lemma_index_of_nth(a);
    T::lemma_index_of_nth(b);
}

/// Order homomorphism: walking the indices upward walks the values upward in
/// the type's own order.
pub proof fn lemma_order_homomorphism<T: Finite>(i: nat)
    requires
        i + 1 < T::spec_count(),
    ensures
        T::spec_nth(i).spec_before(T::spec_nth(i + 1)),
{
    T::lemma_nth_valid(i);
    T::lemma_nth_valid(i + 1);
    T::lemma_nth_index_of(i);
    T::lemma_nth_index_of(i + 1);
    T::lemma_order_iso(T::spec_nth(i), T::spec_nth(i + 1));
}

/// The mixed-radix bound: a two-digit number with digits below its radices
/// stays below the product of the radices.
proof fn lemma_radix_bound(ia: nat, ib: nat, ac: nat, bc: nat)
    by (nonlinear_arith)
    requires
        ia < ac,
        ib < bc,
    ensures
        ia * bc + ib < ac * bc,
{
}

} // verus!
