//! Errors of the simulation.
use vstd::prelude::*;

verus! {

/// Every error of the simulation is fatal: it reports a broken setup or a
/// broken invariant, never a transient condition. A game never runs out of
/// survivors (see `Game::lemma_always_survivor`), so there is no error for
/// that.
#[derive(Clone, Copy, Debug, PartialEq, Eq, Structural)]
pub enum SimError {
    /// No tokens were given, or the board has fewer cells than tokens.
    Configuration,
    /// A movement policy that needs a prior position was given none.
    PolicyPrecondition,
    /// The board was asked about a token id it never registered.
    UnknownToken,
}

impl SimError {
    /// A short human-readable description of the error.
    pub fn message(&self) -> (r: String)
        ensures
            r@ == error_message(*self),
    {
        match self {
            SimError::Configuration => String::from_str(
                "configuration error: no tokens, or fewer cells than tokens",
            ),
            SimError::PolicyPrecondition => String::from_str(
                "policy precondition error: this policy needs a prior position",
            ),
            SimError::UnknownToken => String::from_str("unknown token id"),
        }
    }
}

/// The text that `SimError::message` gives for each error.
pub open spec fn error_message(e: SimError) -> Seq<char> {
    match e {
        SimError::Configuration => "configuration error: no tokens, or fewer cells than tokens"@,
        SimError::PolicyPrecondition => "policy precondition error: this policy needs a prior position"@,
        SimError::UnknownToken => "unknown token id"@,
    }
}

} // verus!
