use vstd::prelude::*;

use crate::composite::Composite;

verus! {

/// What a state decided: go on in another state of the same composite, or
/// leave the composite with a value for whoever drives it.
pub enum Transit<S, Out> {
    /// The next state within the same composite.
    To(S),
    /// Ends the composite's drive loop with this value.
    Lift(Out),
}

/// How a drive loop stopped without a lifted value.
#[derive(Debug, PartialEq, Eq)]
pub enum Halt<E> {
    /// A state failed with this error; no further state ran.
    Failed(E),
    /// The step budget ran out while a next state was still pending.
    OutOfSteps,
}

/// A builder together with its argument. A child composite lifts such a pair
/// so that its parent can resume in the state the builder names, without the
/// child knowing any other state of the parent.
pub struct BuilderPair<B, A> {
    pub builder: B,
    pub arg: A,
}

impl<B, A> BuilderPair<B, A> {
    pub fn new(builder: B, arg: A) -> (r: Self)
        ensures
            r.builder == builder,
            r.arg == arg,
    {
        BuilderPair { builder, arg }
    }

    /// Resumes the parent composite `comp` in the state named by the builder,
    /// handing it the carried argument unchanged.
    pub fn enter<PData, PS, POut, E>(self, comp: Composite<PData>) -> (r: (
        Composite<PData>,
        Result<Transit<PS, POut>, E>,
    )) where
        B: FnOnce(Composite<PData>, A) -> (Composite<PData>, Result<Transit<PS, POut>, E>),

        requires
            self.builder.requires((comp, self.arg)),
        ensures
            self.builder.ensures((comp, self.arg), r),
    {
        let BuilderPair { builder, arg } = self;
        builder(comp, arg)
    }
}

} // verus!
