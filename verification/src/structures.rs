//! Predicates describing the algebraic structure a number type or a
//! context over it models. Downstream layers that organise values into
//! rings, fields and their refinements implement these for their context
//! types; the core number types themselves carry no context.

use vstd::prelude::*;

verus! {

/// A structure with finitely many elements.
pub trait Finite {
    fn is_finite(&self) -> bool;
}

/// A structure whose nonzero elements form a group under multiplication.
pub trait MultiplicativeGroup {
    fn is_multiplicative_group(&self) -> bool;
}

/// A ring.
pub trait Ring {
    fn is_ring(&self) -> bool;
}

/// A ring with commutative multiplication.
pub trait CommutativeRing {
    fn is_commutative_ring(&self) -> bool;
}

/// A commutative ring without zero divisors.
pub trait IntegralDomain {
    fn is_integral_domain(&self) -> bool;
}

/// A domain with unique factorization.
pub trait UniqueFactorizationDomain {
    fn is_unique_factorization_domain(&self) -> bool;

    fn is_ufd(&self) -> bool {
        self.is_unique_factorization_domain()
    }
}

/// A field.
pub trait Field {
    fn is_field(&self) -> bool;
}

/// A field in which every polynomial splits.
pub trait AlgebraicallyClosed {
    fn is_algebraically_closed(&self) -> bool;
}

/// A structure of finite characteristic.
pub trait FiniteCharacteristic {
    fn is_finite_characteristic(&self) -> bool;
}

/// A ring carrying a compatible total order.
pub trait OrderedRing {
    fn is_ordered_ring(&self) -> bool;
}

/// The ring with one element.
pub trait ZeroRing {
    fn is_zero_ring(&self) -> bool;
}

/// A structure whose arithmetic is exact rather than approximate.
pub trait Exact {
    fn is_exact(&self) -> bool;
}

/// A structure whose elements have a canonical representation.
pub trait Canonical {
    fn is_canonical(&self) -> bool;
}

/// A structure that tracks a real-number working precision.
pub trait RealPrecision {
    fn has_real_precision(&self) -> bool;
}

} // verus!
