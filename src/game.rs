//! The engine: setup, the turn cycle, captures and the end of the game.
use vstd::prelude::*;

use crate::board::{enough_cells, Board};
use crate::dimensions::{has_two_cells, in_bounds, within_one, Dimensions};
use crate::error::SimError;
use crate::random::RandomSource;
use crate::token::move_strategy::MovePolicy;
use crate::token::Token;

verus! {

/// How many tokens of `tokens` are alive.
pub open spec fn alive_count(tokens: Seq<Token>) -> nat
    decreases tokens.len(),
{
    if tokens.len() == 0 {
        0
    } else {
        alive_count(tokens.drop_last()) + if tokens.last().alive {
            1nat
        } else {
            0nat
        }
    }
}

/// No two living tokens stand on the same cell.
pub open spec fn living_apart(tokens: Seq<Token>) -> bool {
    forall|i: int, j: int|
        0 <= i < tokens.len() && 0 <= j < tokens.len() && i != j && #[trigger] tokens[i].alive
            && #[trigger] tokens[j].alive ==> tokens[i].pos != tokens[j].pos
}

/// The index `k` places after `cursor` in a cycle of `n` tokens
/// (`0 <= cursor < n`, `0 <= k < n`).
pub open spec fn cyclic(cursor: int, k: int, n: int) -> int {
    if cursor + k < n {
        cursor + k
    } else {
        cursor + k - n
    }
}

/// How many places after `cursor` index `i` comes in a cycle of `n` tokens.
pub open spec fn steps_from(cursor: int, i: int, n: int) -> int {
    if i >= cursor {
        i - cursor
    } else {
        i + n - cursor
    }
}

/// `t` after moving to `p`.
pub open spec fn moved(t: Token, p: Dimensions) -> Token {
    Token { pos: p, ..t }
}

/// `t` after being captured.
pub open spec fn captured(t: Token) -> Token {
    Token { alive: false, ..t }
}

/// Token `i` is the first living token at or after `cursor` in the cyclic
/// turn order.
pub open spec fn first_alive_from(tokens: Seq<Token>, cursor: int, i: int) -> bool {
    &&& 0 <= i < tokens.len()
    &&& tokens[i].alive
    &&& forall|k: int|
        0 <= k < steps_from(cursor, i, tokens.len() as int) ==> !(#[trigger] tokens[cyclic(
            cursor,
            k,
            tokens.len() as int,
        )]).alive
}

/// The tokens after a turn described by `r`: the captured token, if any,
/// is dead, and the mover stands on the target.
pub open spec fn after_turn(tokens: Seq<Token>, r: TurnReport) -> Seq<Token> {
    let after_capture = match r.captured {
        Some(v) => tokens.update(v as int, captured(tokens[v as int])),
        None => tokens,
    };
    after_capture.update(r.mover as int, moved(tokens[r.mover as int], r.target))
}

proof fn lemma_alive_count_bounds(s: Seq<Token>)
    ensures
        alive_count(s) <= s.len(),
        alive_count(s) > 0 ==> exists|i: int| 0 <= i < s.len() && #[trigger] s[i].alive,
    decreases s.len(),
{
    if s.len() > 0 {
        lemma_alive_count_bounds(s.drop_last());
        if alive_count(s.drop_last()) > 0 {
            let i = choose|i: int| 0 <= i < s.drop_last().len() && #[trigger] s.drop_last()[i].alive;
            assert(s[i].alive);
        } else if alive_count(s) > 0 {
            assert(s[s.len() - 1].alive);
        }
    }
}

proof fn lemma_alive_count_update(s: Seq<Token>, i: int, t: Token)
    requires
        0 <= i < s.len(),
    ensures
        alive_count(s.update(i, t)) + (if s[i].alive {
            1int
        } else {
            0int
        }) == alive_count(s) + (if t.alive {
            1int
        } else {
            0int
        }),
    decreases s.len(),
{
    let u = s.update(i, t);
    if i == s.len() - 1 {
        assert(u.drop_last() =~= s.drop_last());
    } else {
        lemma_alive_count_update(s.drop_last(), i, t);
        assert(u.drop_last() =~= s.drop_last().update(i, t));
    }
}

proof fn lemma_one_alive(s: Seq<Token>, i: int)
    requires
        0 <= i < s.len(),
        s[i].alive,
    ensures
        alive_count(s) >= 1,
    decreases s.len(),
{
    if i < s.len() - 1 {
        lemma_one_alive(s.drop_last(), i);
    }
}

proof fn lemma_two_alive(s: Seq<Token>, i: int, j: int)
    requires
        0 <= i < s.len(),
        0 <= j < s.len(),
        i != j,
        s[i].alive,
        s[j].alive,
    ensures
        alive_count(s) >= 2,
    decreases s.len(),
{
    let last = s.len() - 1;
    if i == last {
        lemma_one_alive(s.drop_last(), j);
    } else if j == last {
        lemma_one_alive(s.drop_last(), i);
    } else {
        lemma_two_alive(s.drop_last(), i, j);
    }
}

proof fn lemma_alive_count_prefix(s: Seq<Token>, i: int)
    requires
        0 <= i < s.len(),
    ensures
        alive_count(s.take(i + 1)) == alive_count(s.take(i)) + if s[i].alive {
            1nat
        } else {
            0nat
        },
{
    assert(s.take(i + 1).drop_last() =~= s.take(i));
}

/// A game in progress: the board, the tokens in their fixed turn order, and
/// the place in that order where the search for the next mover starts.
/// Token `i` has id `i`.
pub struct Game {
    board: Board,
    tokens: Vec<Token>,
    cursor: usize,
}

/// What happened in one turn.
#[derive(Clone, Copy, Debug, PartialEq, Eq, Structural)]
pub struct TurnReport {
    /// The token that moved.
    pub mover: usize,
    /// Where it moved to.
    pub target: Dimensions,
    /// The token it captured there, if any.
    pub captured: Option<usize>,
}

/// The stage a game is in. Setup happens inside `Game::new`.
#[derive(Clone, Copy, Debug, PartialEq, Eq, Structural)]
pub enum Phase {
    /// At least two tokens are alive.
    Running,
    /// Exactly one token is alive.
    Finished,
}

impl Game {
    /// The tokens, in turn order.
    pub closed spec fn spec_tokens(&self) -> Seq<Token> {
        self.tokens@
    }

    /// The board.
    pub closed spec fn spec_board(&self) -> Board {
        self.board
    }

    /// Where the search for the next mover starts.
    pub closed spec fn spec_cursor(&self) -> int {
        self.cursor as int
    }

    /// The game's invariant: the board holds one entry per token, each token
    /// caches its board position, every position is on the board, living
    /// tokens stand on distinct cells, and at least one token is alive.
    pub closed spec fn wf(&self) -> bool {
        let n = self.tokens.len();
        &&& n == self.board.positions.len()
        &&& enough_cells(self.board.width as int, self.board.height as int, n as int)
        &&& self.cursor < n
        &&& alive_count(self.tokens@) >= 1
        &&& forall|i: int|
            0 <= i < n ==> (#[trigger] self.tokens@[i]).id == i && self.tokens@[i].pos
                == self.board.positions@[i] && in_bounds(self.tokens@[i].pos, self.board.size())
        &&& living_apart(self.tokens@)
    }

    /// A well-formed game always has a token alive: a game never ends
    /// without a survivor.
    pub proof fn lemma_always_survivor(&self)
        requires
            self.wf(),
        ensures
            alive_count(self.spec_tokens()) >= 1,
            exists|i: int| 0 <= i < self.spec_tokens().len() && #[trigger] self.spec_tokens()[i].alive,
    {
        lemma_alive_count_bounds(self.tokens@);
    }

    /// Sets up a game on a `width` x `height` board: token `i` gets id `i`,
    /// comes alive, and is placed on a cell of its own. Fails with
    /// `Configuration` when there are no tokens or fewer cells than tokens.
    pub fn new<R: RandomSource>(width: usize, height: usize, tokens: Vec<Token>, rng: &mut R) -> (r:
        Result<Game, SimError>)
        ensures
            r is Err <==> !enough_cells(width as int, height as int, tokens.len() as int),
            r matches Err(e) ==> e == SimError::Configuration,
            r matches Ok(g) ==> g.wf() && g.spec_cursor() == 0 && g.spec_board().width == width
                && g.spec_board().height == height && g.spec_board().placed_apart()
                && g.spec_tokens().len() == tokens.len(),
            r matches Ok(g) ==> forall|i: int|
                0 <= i < tokens.len() ==> #[trigger] g.spec_tokens()[i] == (Token {
                    id: i as usize,
                    alive: true,
                    pos: g.spec_board().positions@[i],
                    ..tokens@[i]
                }),
    {
        let n = tokens.len();
        let mut board = match Board::new(width, height, n) {
            Ok(b) => b,
            Err(e) => {
                return Err(e);
            },
        };
        match board.place_uniquely(rng) {
            Ok(()) => {},
            Err(e) => {
                return Err(e);
            },
        }
        let mut tokens = tokens;
        let ghost given = tokens@;
        let mut i: usize = 0;
        while i < n
            invariant
                n == tokens.len(),
                n == given.len(),
                n == board.positions.len(),
                i <= n,
                forall|k: int|
                    0 <= k < i ==> #[trigger] tokens@[k] == (Token {
                        id: k as usize,
                        alive: true,
                        pos: board.positions@[k],
                        ..given[k]
                    }),
                forall|k: int| i <= k < n ==> #[trigger] tokens@[k] == given[k],
            decreases n - i,
        {
            let mut t = tokens[i];
            t.id = i;
            t.alive = true;
            t.pos = board.positions[i];
            tokens.set(i, t);
            i += 1;
        }
        proof {
            lemma_one_alive(tokens@, 0);
            assert forall|a: int, b: int|
                0 <= a < tokens.len() && 0 <= b < tokens.len() && a != b && #[trigger] tokens@[a].alive
                    && #[trigger] tokens@[b].alive implies tokens@[a].pos != tokens@[b].pos by {
                assert(board.positions@[a] != board.positions@[b]);
            }
        }
        Ok(Game { board, tokens, cursor: 0 })
    }

    /// The tokens, in turn order.
    pub fn tokens(&self) -> (r: &Vec<Token>)
        ensures
            r@ == self.spec_tokens(),
    {
        &self.tokens
    }

    /// The board.
    pub fn board(&self) -> (r: &Board)
        ensures
            *r == self.spec_board(),
    {
        &self.board
    }

    /// The board as text, one line per row: each cell shows the symbol of
    /// the living token on it, or `.` when it is empty.
    pub fn render(&self) -> (r: String)
        requires
            self.wf(),
        ensures
            r@ == self.spec_board().rows_text(self.spec_tokens(), self.spec_board().height as int),
    {
        self.board.render(self.tokens.as_slice())
    }

    /// How many tokens are alive.
    pub fn living_count(&self) -> (r: usize)
        requires
            self.wf(),
        ensures
            r == alive_count(self.spec_tokens()),
    {
        let n = self.tokens.len();
        let mut count: usize = 0;
        let mut i: usize = 0;
        while i < n
            invariant
                n == self.tokens.len(),
                i <= n,
                count == alive_count(self.tokens@.take(i as int)),
            decreases n - i,
        {
            proof {
                lemma_alive_count_prefix(self.tokens@, i as int);
                lemma_alive_count_bounds(self.tokens@.take(i as int));
            }
            if self.tokens[i].alive {
                count += 1;
            }
            i += 1;
        }
        assert(self.tokens@.take(n as int) =~= self.tokens@);
        count
    }

    /// The stage of the game: finished once a single token is alive.
    pub fn phase(&self) -> (r: Phase)
        requires
            self.wf(),
        ensures
            r == Phase::Finished <==> alive_count(self.spec_tokens()) == 1,
    {
        if self.living_count() == 1 {
            Phase::Finished
        } else {
            Phase::Running
        }
    }

    /// The sole surviving token once the game is finished; `None` while at
    /// least two tokens are alive.
    pub fn winner(&self) -> (r: Option<usize>)
        requires
            self.wf(),
        ensures
            r is Some <==> alive_count(self.spec_tokens()) == 1,
            r matches Some(w) ==> w < self.spec_tokens().len() && self.spec_tokens()[w as int].alive,
            r matches Some(w) ==> forall|j: int|
                0 <= j < self.spec_tokens().len() && j != w ==> !(#[trigger] self.spec_tokens()[j]).alive,
    {
        if self.living_count() != 1 {
            return None;
        }
        proof {
            lemma_alive_count_bounds(self.tokens@);
        }
        let n = self.tokens.len();
        let mut i: usize = 0;
        while i < n
            invariant
                n == self.tokens.len(),
                i <= n,
                alive_count(self.tokens@) == 1,
                forall|k: int| 0 <= k < i ==> !(#[trigger] self.tokens@[k]).alive,
                exists|k: int| 0 <= k < n && #[trigger] self.tokens@[k].alive,
            decreases n - i,
        {
            if self.tokens[i].alive {
                proof {
                    assert forall|j: int|
                        0 <= j < n && j != i implies !(#[trigger] self.tokens@[j]).alive by {
                        if self.tokens@[j].alive {
                            lemma_two_alive(self.tokens@, i as int, j);
                        }
                    }
                }
                return Some(i);
            }
            i += 1;
        }
        None
    }

    /// The first living token at or after the cursor, in turn order.
    pub fn next_mover(&self) -> (r: usize)
        requires
            self.wf(),
        ensures
            first_alive_from(self.spec_tokens(), self.spec_cursor(), r as int),
    {
        let n = self.tokens.len();
        let c = self.cursor;
        proof {
            self.lemma_always_survivor();
        }
        let mut k: usize = 0;
        while k < n
            invariant
                n == self.tokens.len(),
                c == self.cursor,
                c < n,
                k <= n,
                forall|j: int| 0 <= j < k ==> !(#[trigger] self.tokens@[cyclic(c as int, j, n as int)]).alive,
            decreases n - k,
        {
            let idx = if k < n - c {
                c + k
            } else {
                k - (n - c)
            };
            if self.tokens[idx].alive {
                assert(steps_from(c as int, idx as int, n as int) == k);
                return idx;
            }
            k += 1;
        }
        proof {
            let i = choose|i: int| 0 <= i < n && #[trigger] self.tokens@[i].alive;
            let j = steps_from(c as int, i, n as int);
            assert(cyclic(c as int, j, n as int) == i);
            assert(!self.tokens@[cyclic(c as int, j, n as int)].alive);
        }
        0
    }

    /// Plays one turn: the next living token in turn order asks its policy
    /// for a target; a living token standing there is captured before the
    /// mover's new position is committed; then the turn passes on.
    pub fn step<R: RandomSource>(&mut self, rng: &mut R) -> (r: TurnReport)
        requires
            old(self).wf(),
            alive_count(old(self).spec_tokens()) >= 2,
        ensures
            final(self).wf(),
            first_alive_from(old(self).spec_tokens(), old(self).spec_cursor(), r.mover as int),
            in_bounds(r.target, old(self).spec_board().size()),
            r.target != old(self).spec_tokens()[r.mover as int].pos,
            old(self).spec_tokens()[r.mover as int].move_strategy == MovePolicy::Adjacent
                ==> within_one(r.target, old(self).spec_tokens()[r.mover as int].pos),
            r.captured matches Some(v) ==> v < old(self).spec_tokens().len() && v != r.mover
                && old(self).spec_tokens()[v as int].alive && old(self).spec_tokens()[v as int].pos
                == r.target,
            r.captured is None ==> forall|j: int|
                0 <= j < old(self).spec_tokens().len() ==> !(#[trigger] old(self).spec_tokens()[j].alive
                    && old(self).spec_tokens()[j].pos == r.target),
            forall|j: int|
                0 <= j < old(self).spec_tokens().len() ==> (#[trigger] final(self).spec_tokens()[j].alive
                    != old(self).spec_tokens()[j].alive <==> r.captured == Some(j as usize)),
            final(self).spec_tokens() == after_turn(old(self).spec_tokens(), r),
            final(self).spec_board().positions@ == old(self).spec_board().positions@.update(
                r.mover as int,
                r.target,
            ),
            final(self).spec_board().width == old(self).spec_board().width,
            final(self).spec_board().height == old(self).spec_board().height,
            final(self).spec_cursor() == if r.mover + 1 < old(self).spec_tokens().len() {
                r.mover + 1
            } else {
                0
            },
            alive_count(final(self).spec_tokens()) == alive_count(old(self).spec_tokens()) - if r.captured is Some {
                1int
            } else {
                0int
            },
    {
        let ghost before = self.tokens@;
        let n = self.tokens.len();
        let mover = self.next_mover();
        let bounds = self.board.bounds();
        proof {
            lemma_alive_count_bounds(self.tokens@);
            let (w, h) = (self.board.width as int, self.board.height as int);
            assert(has_two_cells(bounds)) by (nonlinear_arith)
                requires
                    2 <= n <= w * h,
                    w >= 0,
                    h >= 0,
                    bounds.row == h,
                    bounds.col == w,
            ;
        }
        let t = self.tokens[mover];
        let target = match t.relocate(bounds, rng) {
            Ok(p) => p,
            Err(_) => {
                proof {
                    assert(false);
                }
                t.pos
            },
        };
        let occupant = self.board.try_get_alive_token(target.row, target.col, self.tokens.as_slice());
        if let Some(v) = occupant {
            let mut victim = self.tokens[v];
            victim.kill();
            self.tokens.set(v, victim);
        }
        let ghost mid = self.tokens@;
        let _ = self.board.update_position(mover, target.row, target.col);
        let mut m = self.tokens[mover];
        m.pos = target;
        self.tokens.set(mover, m);
        self.cursor = if mover + 1 < n {
            mover + 1
        } else {
            0
        };
        let r = TurnReport { mover, target, captured: occupant };
        proof {
            assert(self.tokens@ =~= after_turn(before, r));
            match occupant {
                Some(v) => {
                    lemma_alive_count_update(before, v as int, captured(before[v as int]));
                },
                None => {},
            }
            lemma_alive_count_update(mid, mover as int, moved(before[mover as int], target));
            let after = self.tokens@;
            assert forall|a: int, b: int|
                0 <= a < n && 0 <= b < n && a != b && #[trigger] after[a].alive
                    && #[trigger] after[b].alive implies after[a].pos != after[b].pos by {
                if a == mover as int && before[b].pos == target {
                    assert(before[b].alive);
                } else if b == mover as int && before[a].pos == target {
                    assert(before[a].alive);
                }
            }
        }
        r
    }
}

} // verus!
