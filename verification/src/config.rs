//! The particle distribution methods and the choice between them.

use vstd::prelude::*;

verus! {

/// All the different ways of randomly generating particles, each carrying the
/// settings of its generator: `P` for the evenly spread plain generator, `B` for
/// the belt generator.
#[derive(Debug, Clone)]
pub enum DistributionMethod<P, B> {
    Plain(P),
    Belt(B),
}

/// The same choice as [`DistributionMethod`], without the settings (for the UI).
#[derive(Debug, Clone, Copy, PartialEq, Eq, Structural)]
pub enum DistributionMethodEmpty {
    Plain,
    Belt,
}

impl Default for DistributionMethodEmpty {
    /// The belt is the default choice.
    fn default() -> (r: Self)
        ensures
            r == DistributionMethodEmpty::Belt,
    {
        DistributionMethodEmpty::Belt
    }
}

impl<P, B> DistributionMethod<P, B> {
    /// The variant of `self`, without its settings.
    pub open spec fn kind(&self) -> DistributionMethodEmpty {
        match self {
            DistributionMethod::Plain(_) => DistributionMethodEmpty::Plain,
            DistributionMethod::Belt(_) => DistributionMethodEmpty::Belt,
        }
    }

    /// Get the corresponding [`DistributionMethodEmpty`].
    pub fn corresponding(&self) -> (r: DistributionMethodEmpty)
        ensures
            r == self.kind(),
    {
        match self {
            DistributionMethod::Plain(_) => DistributionMethodEmpty::Plain,
            DistributionMethod::Belt(_) => DistributionMethodEmpty::Belt,
        }
    }

    /// Checks if `self` corresponds to `other`.
    pub fn is_same(&self, other: DistributionMethodEmpty) -> (r: bool)
        ensures
            r <==> self.kind() == other,
    {
        self.corresponding() == other
    }
}

impl<P, B: Default> Default for DistributionMethod<P, B> {
    /// The belt generator with its default settings.
    fn default() -> (r: Self)
        ensures
            r matches DistributionMethod::Belt(b) && call_ensures(B::default, (), b),
            r.kind() == DistributionMethodEmpty::Belt,
    {
        DistributionMethod::Belt(B::default())
    }
}

impl DistributionMethodEmpty {
    /// The [`DistributionMethod`] of the same variant, with default settings.
    pub fn corresponding_default<P: Default, B: Default>(&self) -> (r: DistributionMethod<P, B>)
        ensures
            r.kind() == *self,
            *self == DistributionMethodEmpty::Plain ==> (r matches DistributionMethod::Plain(p)
                && call_ensures(P::default, (), p)),
            *self == DistributionMethodEmpty::Belt ==> (r matches DistributionMethod::Belt(b)
                && call_ensures(B::default, (), b)),
    {
        match self {
            DistributionMethodEmpty::Plain => DistributionMethod::Plain(P::default()),
            DistributionMethodEmpty::Belt => DistributionMethod::Belt(B::default()),
        }
    }
}

} // verus!
