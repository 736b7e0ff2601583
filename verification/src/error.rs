//! The failure vocabulary. Structural failures (`Format`) mean the token
//! itself is not valid and are detected before any logic evaluation; `Logic`
//! failures are ordinary authorization denials produced by checking, and
//! name the caveats that found no satisfying binding.
use vstd::prelude::*;

verus! {

/// A caveat that found no satisfying binding: either a caveat carried by a
/// token block, or one added by the verifier.
#[derive(Clone, Copy, PartialEq, Eq, Structural, Debug)]
pub enum FailedCaveat {
    Block { block_id: u32, caveat_id: u32 },
    Verifier { caveat_id: u32 },
}

/// An authorization denial, or an abandoned derivation. Only checking a
/// token produces these.
#[derive(Debug)]
pub enum Logic {
    /// The derivation hit the pass cap without reaching a fixpoint.
    IterationLimit,
    /// At least one caveat was not satisfied; all unsatisfied ones are named.
    FailedCaveats(Vec<FailedCaveat>),
}

/// Model of a `Logic` failure.
#[verifier::ext_equal]
pub enum LogicV {
    IterationLimit,
    FailedCaveats(Seq<FailedCaveat>),
}

impl View for Logic {
    type V = LogicV;

    open spec fn view(&self) -> LogicV {
        match self {
            Logic::IterationLimit => LogicV::IterationLimit,
            Logic::FailedCaveats(v) => LogicV::FailedCaveats(v@),
        }
    }
}

/// Model of a checking outcome.
pub open spec fn result_view(r: Result<(), Logic>) -> Result<(), LogicV> {
    match r {
        Ok(u) => Ok(u),
        Err(e) => Err(e@),
    }
}

/// A structural or cryptographic failure: the token is not valid, whatever
/// it would authorize.
#[derive(Clone, Copy, PartialEq, Eq, Structural, Debug)]
pub enum Format {
    InvalidSignature,
}

} // verus!
