//! Game pieces and the policies that move them.
use vstd::prelude::*;

pub mod move_strategy;

use crate::dimensions::{has_two_cells, in_bounds, nonempty, within_one, Dimensions};
use crate::error::SimError;
use crate::random::RandomSource;
use colored::Color;
use move_strategy::{MovePolicy, MoveStrategy};

verus! {

#[verifier::external_type_specification]
#[verifier::external_body]
pub struct ExColor(Color);

/// A game piece. Its identity is its `id`; `symbol` and `color` only serve
/// to display it. `pos` is the last position the game committed for it.
#[derive(Clone, Copy, Debug)]
pub struct Token {
    pub symbol: char,
    pub color: Color,
    pub move_strategy: MovePolicy,
    pub id: usize,
    pub pos: Dimensions,
    pub alive: bool,
}

impl Token {
    /// A living token with id 0 at the placeholder position (0, 0); the
    /// game assigns the real id and position during setup.
    pub fn new(symbol: char, move_strategy: MovePolicy, color: Color) -> (r: Self)
        ensures
            r.symbol == symbol,
            r.color == color,
            r.move_strategy == move_strategy,
            r.id == 0,
            r.pos == (Dimensions { row: 0, col: 0 }),
            r.alive,
    {
        Token { symbol, color, move_strategy, id: 0, pos: Dimensions::new(0, 0), alive: true }
    }

    /// The position handed to the policy: the last known one while the token
    /// is alive, none once it has been captured.
    pub open spec fn prior(&self) -> Option<Dimensions> {
        if self.alive {
            Some(self.pos)
        } else {
            None
        }
    }

    /// Asks the token's policy for its next destination. The token itself is
    /// left unchanged: committing the move is the game's work.
    pub fn relocate<R: RandomSource>(&self, bounds: Dimensions, rng: &mut R) -> (r: Result<
        Dimensions,
        SimError,
    >)
        requires
            nonempty(bounds),
            self.alive ==> in_bounds(self.pos, bounds) && has_two_cells(bounds),
        ensures
            r matches Ok(p) ==> in_bounds(p, bounds),
            r matches Ok(p) ==> (self.alive ==> p != self.pos),
            r matches Ok(p) ==> (self.alive && self.move_strategy == MovePolicy::Adjacent
                ==> within_one(p, self.pos)),
            r is Err <==> (!self.alive && self.move_strategy == MovePolicy::Adjacent),
            r matches Err(e) ==> e == SimError::PolicyPrecondition,
    {
        let prior = if self.alive {
            Some(self.pos)
        } else {
            None
        };
        self.move_strategy.generate(prior, bounds, rng)
    }

    pub fn is_alive(&self) -> (r: bool)
        ensures
            r == self.alive,
    {
        self.alive
    }

    /// Marks the token as captured. Killing a dead token changes nothing.
    pub fn kill(&mut self)
        ensures
            *final(self) == (Token { alive: false, ..*old(self) }),
    {
        self.alive = false;
    }
}

impl PartialEq for Token {
    fn eq(&self, other: &Token) -> (r: bool) {
        self.id == other.id
    }
}

impl vstd::std_specs::cmp::PartialEqSpecImpl for Token {
    open spec fn obeys_eq_spec() -> bool {
        true
    }

    open spec fn eq_spec(&self, other: &Token) -> bool {
        self.id == other.id
    }
}

} // verus!
