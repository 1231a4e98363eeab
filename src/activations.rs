use vstd::prelude::*;
use vstd::std_specs::convert::FromSpec;

verus! {

/// A pair of scalar functions applied cell by cell: `function` maps a
/// layer's weighted input to its output, and `derivative` maps that output
/// (not the weighted input) to the slope of `function` there.
#[derive(Debug, Clone, Copy)]
pub struct Activation<F, D> {
    pub function: F,
    pub derivative: D,
}

impl<F, D> Activation<F, D> {
    /// Both functions accept every value of `T`.
    pub open spec fn is_total<T>(&self) -> bool where F: Fn(T) -> T, D: Fn(T) -> T {
        &&& forall|x: T| #[trigger] self.function.requires((x,))
        &&& forall|x: T| #[trigger] self.derivative.requires((x,))
    }
}

/// The identity: `x` itself.
pub fn identity_function<T>(x: T) -> (r: T)
    ensures
        r == x,
{
    x
}

/// The slope of the identity: one, whatever the value.
pub fn identity_derivative<T: From<u8>>(x: T) -> (r: T)
    ensures
        T::obeys_from_spec() ==> r == T::from_spec(1u8),
{
    T::from(1u8)
}

} // verus!
