use vstd::prelude::*;

verus! {

/// Arithmetic interface of the numeric type a network computes with.
///
/// The library is generic over its scalar: the arithmetic itself (floating
/// point in the usual embedding) is supplied from outside this crate.
/// Each executable method is paired with a spec-level name for its result,
/// and its contract says exactly that the method computes that name of its
/// arguments — nothing more. Every contract of the library that mentions a
/// computed value speaks through these names, so what is proved holds for
/// any implementation whose operations are functions of their arguments
/// alone; implementations live outside this crate and are not themselves
/// checked against these contracts.
pub trait Scalar: Sized + Copy {
    /// The additive identity's value.
    spec fn spec_zero() -> Self;

    /// The multiplicative identity's value.
    spec fn spec_one() -> Self;

    /// The value of a sum.
    spec fn spec_plus(self, other: Self) -> Self;

    /// The value of a difference.
    spec fn spec_minus(self, other: Self) -> Self;

    /// The value of a product.
    spec fn spec_times(self, other: Self) -> Self;

    /// The value of the logistic activation, sigmoid(x) = 1 / (1 + e^-x).
    spec fn spec_sigmoid(self) -> Self;

    /// The activation's derivative computed from its own output: y * (1 - y),
    /// where y is an already-computed sigmoid value.
    spec fn spec_d_sigmoid(self) -> Self;

    /// The feature encoded by one raw pixel byte, byte / 255.
    spec fn spec_from_pixel(p: u8) -> Self;

    /// The additive identity; seeds sums and fills blank gradient slots.
    fn zero() -> (r: Self)
        ensures
            r == Self::spec_zero(),
    ;

    /// The multiplicative identity; marks the hot entry of a one-hot target.
    fn one() -> (r: Self)
        ensures
            r == Self::spec_one(),
    ;

    fn plus(self, other: Self) -> (r: Self)
        ensures
            r == self.spec_plus(other),
    ;

    fn minus(self, other: Self) -> (r: Self)
        ensures
            r == self.spec_minus(other),
    ;

    fn times(self, other: Self) -> (r: Self)
        ensures
            r == self.spec_times(other),
    ;

    /// The logistic activation.
    fn sigmoid(self) -> (r: Self)
        ensures
            r == self.spec_sigmoid(),
    ;

    /// The activation's derivative from its own output.
    fn d_sigmoid(self) -> (r: Self)
        ensures
            r == self.spec_d_sigmoid(),
    ;

    /// The feature encoded by one raw pixel byte.
    fn from_pixel(p: u8) -> (r: Self)
        ensures
            r == Self::spec_from_pixel(p),
    ;
}

} // verus!
