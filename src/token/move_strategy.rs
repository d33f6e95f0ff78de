//! Movement policies: where a token goes next.
use vstd::prelude::*;

use crate::dimensions::{has_two_cells, in_bounds, nonempty, within_one, Dimensions};
use crate::error::SimError;
use crate::random::RandomSource;

verus! {

/// How many draws a policy makes before it settles on a neighbouring cell.
/// Each draw is accepted with probability at least one third, so the
/// fallback is practically never taken.
pub const MAX_DRAWS: usize = 64;

/// A rule that picks a token's next position.
pub trait MoveStrategy {
    /// A destination for a token at `old_pos` (`None` when the token has not
    /// been placed yet) on a board of size `bounds`. The destination is always
    /// on the board and never the position the token stands on.
    fn generate<R: RandomSource>(
        &self,
        old_pos: Option<Dimensions>,
        bounds: Dimensions,
        rng: &mut R,
    ) -> (r: Result<Dimensions, SimError>)
        requires
            nonempty(bounds),
            old_pos matches Some(p) ==> in_bounds(p, bounds) && has_two_cells(bounds),
        ensures
            r matches Ok(p) ==> in_bounds(p, bounds),
            r matches Ok(p) ==> (old_pos matches Some(o) ==> p != o),
            r matches Err(e) ==> e == SimError::PolicyPrecondition && old_pos is None,
    ;

    /// How the policy moves, as an adverb ("randomly").
    fn descriptor(&self) -> String;
}

/// Moves a token to a uniformly random cell of the board.
pub struct Random;

/// Moves a token to a neighbouring cell (orthogonal or diagonal).
pub struct Adjacent;

/// A cell next to `p` on a board of size `bounds`.
fn neighbour(p: Dimensions, bounds: Dimensions) -> (r: Dimensions)
    requires
        has_two_cells(bounds),
        in_bounds(p, bounds),
    ensures
        in_bounds(r, bounds),
        r != p,
        within_one(r, p),
{
    if p.col + 1 < bounds.col {
        Dimensions { row: p.row, col: p.col + 1 }
    } else if p.col > 0 {
        Dimensions { row: p.row, col: p.col - 1 }
    } else if p.row + 1 < bounds.row {
        Dimensions { row: p.row + 1, col: p.col }
    } else {
        Dimensions { row: p.row - 1, col: p.col }
    }
}

impl Random {
    /// The outcome of one draw of `(row, col)`: the drawn cell, unless it is
    /// the position the token stands on.
    pub fn candidate(old_pos: Option<Dimensions>, row: usize, col: usize) -> (r: Option<
        Dimensions,
    >)
        ensures
            r == (if old_pos == Some(Dimensions { row, col }) {
                None::<Dimensions>
            } else {
                Some(Dimensions { row, col })
            }),
    {
        match old_pos {
            Some(o) => {
                if o.row == row && o.col == col {
                    None
                } else {
                    Some(Dimensions { row, col })
                }
            },
            None => Some(Dimensions { row, col }),
        }
    }
}

impl MoveStrategy for Random {
    fn generate<R: RandomSource>(
        &self,
        old_pos: Option<Dimensions>,
        bounds: Dimensions,
        rng: &mut R,
    ) -> (r: Result<Dimensions, SimError>)
        ensures
            r is Ok,
    {
        let mut attempt: usize = 0;
        while attempt < MAX_DRAWS
            invariant
                nonempty(bounds),
                old_pos matches Some(p) ==> in_bounds(p, bounds) && has_two_cells(bounds),
            decreases MAX_DRAWS - attempt,
        {
            let row = rng.next_below(bounds.row);
            let col = rng.next_below(bounds.col);
            if let Some(dest) = Random::candidate(old_pos, row, col) {
                return Ok(dest);
            }
            attempt += 1;
        }
        match old_pos {
            Some(o) => Ok(neighbour(o, bounds)),
            None => Ok(Dimensions { row: 0, col: 0 }),
        }
    }

    fn descriptor(&self) -> (r: String)
        ensures
            r@ == "randomly"@,
    {
        String::from_str("randomly")
    }
}

/// One coordinate after a shift: `draw` 0 steps back (not below zero), 1
/// stays, 2 steps forward; the result is then clamped to `bound - 1`.
pub open spec fn shifted(x: int, bound: int, draw: int) -> int {
    let moved = if draw == 0 {
        if x == 0 {
            0
        } else {
            x - 1
        }
    } else if draw == 1 {
        x
    } else {
        x + 1
    };
    if moved < bound - 1 {
        moved
    } else {
        bound - 1
    }
}

impl Adjacent {
    /// Shifts the coordinate `x` by `draw - 1` and clamps it into `[0, bound)`.
    pub fn shift(x: usize, bound: usize, draw: usize) -> (r: usize)
        requires
            x < bound,
            draw < 3,
        ensures
            r == shifted(x as int, bound as int, draw as int),
    {
        let moved = if draw == 0 {
            x.saturating_sub(1)
        } else if draw == 1 {
            x
        } else {
            x + 1
        };
        if moved < bound - 1 {
            moved
        } else {
            bound - 1
        }
    }

    /// The outcome of one pair of draws: `old_pos` shifted on each axis,
    /// unless that leaves it where it was.
    pub fn candidate(old_pos: Dimensions, bounds: Dimensions, row_draw: usize, col_draw: usize) -> (r:
        Option<Dimensions>)
        requires
            in_bounds(old_pos, bounds),
            row_draw < 3,
            col_draw < 3,
        ensures
            ({
                let row = shifted(old_pos.row as int, bounds.row as int, row_draw as int);
                let col = shifted(old_pos.col as int, bounds.col as int, col_draw as int);
                if row == old_pos.row && col == old_pos.col {
                    r is None
                } else {
                    r == Some(Dimensions { row: row as usize, col: col as usize })
                }
            }),
    {
        let row = Adjacent::shift(old_pos.row, bounds.row, row_draw);
        let col = Adjacent::shift(old_pos.col, bounds.col, col_draw);
        if row == old_pos.row && col == old_pos.col {
            None
        } else {
            Some(Dimensions { row, col })
        }
    }
}

impl MoveStrategy for Adjacent {
    fn generate<R: RandomSource>(
        &self,
        old_pos: Option<Dimensions>,
        bounds: Dimensions,
        rng: &mut R,
    ) -> (r: Result<Dimensions, SimError>)
        ensures
            r is Err <==> old_pos is None,
            r matches Ok(p) ==> (old_pos matches Some(o) ==> within_one(p, o)),
    {
        let old = match old_pos {
            Some(o) => o,
            None => {
                return Err(SimError::PolicyPrecondition);
            },
        };
        let mut attempt: usize = 0;
        while attempt < MAX_DRAWS
            invariant
                in_bounds(old, bounds),
                has_two_cells(bounds),
                old_pos == Some(old),
            decreases MAX_DRAWS - attempt,
        {
            let row_draw = rng.next_below(3);
            let col_draw = rng.next_below(3);
            if let Some(dest) = Adjacent::candidate(old, bounds, row_draw, col_draw) {
                return Ok(dest);
            }
            attempt += 1;
        }
        Ok(neighbour(old, bounds))
    }

    fn descriptor(&self) -> (r: String)
        ensures
            r@ == "adjacently"@,
    {
        String::from_str("adjacently")
    }
}

/// The policy a token carries: one of the two strategies above.
#[derive(Clone, Copy, Debug, PartialEq, Eq, Structural)]
pub enum MovePolicy {
    Random,
    Adjacent,
}

impl MoveStrategy for MovePolicy {
    fn generate<R: RandomSource>(
        &self,
        old_pos: Option<Dimensions>,
        bounds: Dimensions,
        rng: &mut R,
    ) -> (r: Result<Dimensions, SimError>)
        ensures
            *self == MovePolicy::Random ==> r is Ok,
            *self == MovePolicy::Adjacent ==> (r is Err <==> old_pos is None),
            *self == MovePolicy::Adjacent ==> (r matches Ok(p) ==> (old_pos matches Some(o)
                ==> within_one(p, o))),
    {
        match self {
            MovePolicy::Random => Random.generate(old_pos, bounds, rng),
            MovePolicy::Adjacent => Adjacent.generate(old_pos, bounds, rng),
        }
    }

    fn descriptor(&self) -> (r: String)
        ensures
            r@ == policy_label(*self),
    {
        match self {
            MovePolicy::Random => Random.descriptor(),
            MovePolicy::Adjacent => Adjacent.descriptor(),
        }
    }
}

/// The adverb that describes how a policy moves.
pub open spec fn policy_label(p: MovePolicy) -> Seq<char> {
    match p {
        MovePolicy::Random => "randomly"@,
        MovePolicy::Adjacent => "adjacently"@,
    }
}

} // verus!
