//! The board: the authoritative table of where every token stands.
use vstd::prelude::*;
use vstd::arithmetic::div_mod::{lemma_fundamental_div_mod, lemma_mod_pos_bound};
use vstd::set_lib::{lemma_int_range, lemma_len_subset, set_int_range};

use crate::dimensions::{cell_at, in_bounds, nonempty, Dimensions};
use crate::error::SimError;
use crate::random::RandomSource;
use crate::token::move_strategy::MAX_DRAWS;
use crate::token::Token;

verus! {

/// Relies on `String::push`: it appends one character at the end.
pub assume_specification[ String::push ](s: &mut String, ch: char)
    ensures
        final(s)@ == old(s)@.push(ch),
;

/// A `width` x `height` grid and the position of each token. Token ids are
/// indices: `positions[i]` is where token `i` stands.
#[derive(Debug)]
pub struct Board {
    pub positions: Vec<Dimensions>,
    pub width: usize,
    pub height: usize,
}

/// There is at least one token, and a grid of `width` x `height` has a
/// distinct cell for each of the `n` tokens.
pub open spec fn enough_cells(width: int, height: int, n: int) -> bool {
    0 < n <= width * height
}

/// No two entries of `ps` are equal.
pub open spec fn pairwise_distinct(ps: Seq<Dimensions>) -> bool {
    forall|i: int, j: int| 0 <= i < ps.len() && 0 <= j < ps.len() && i != j ==> ps[i] != ps[j]
}

/// The lowest index below `k` of a living token that stands on `target`.
pub open spec fn occupant_below(
    positions: Seq<Dimensions>,
    tokens: Seq<Token>,
    target: Dimensions,
    k: int,
) -> Option<int>
    decreases k,
{
    if k <= 0 {
        None
    } else {
        match occupant_below(positions, tokens, target, k - 1) {
            Some(i) => Some(i),
            None => if tokens[k - 1].alive && positions[k - 1] == target {
                Some(k - 1)
            } else {
                None
            },
        }
    }
}

proof fn lemma_occupant_below(
    positions: Seq<Dimensions>,
    tokens: Seq<Token>,
    target: Dimensions,
    k: int,
)
    requires
        0 <= k,
    ensures
        occupant_below(positions, tokens, target, k) matches Some(i) ==> 0 <= i < k
            && tokens[i].alive && positions[i] == target && forall|j: int|
            0 <= j < i ==> !(#[trigger] tokens[j].alive && positions[j] == target),
        occupant_below(positions, tokens, target, k) is None ==> forall|j: int|
            0 <= j < k ==> !(#[trigger] tokens[j].alive && positions[j] == target),
    decreases k,
{
    if k > 0 {
        lemma_occupant_below(positions, tokens, target, k - 1);
    }
}

proof fn lemma_occupant_stable(
    positions: Seq<Dimensions>,
    tokens: Seq<Token>,
    target: Dimensions,
    k: int,
    m: int,
)
    requires
        k <= m,
        occupant_below(positions, tokens, target, k) is Some,
    ensures
        occupant_below(positions, tokens, target, m) == occupant_below(positions, tokens, target, k),
    decreases m - k,
{
    if k < m {
        lemma_occupant_stable(positions, tokens, target, k, m - 1);
    }
}

/// Are all `n` tokens on distinct cells of a `width` x `height` grid?
fn fits(width: usize, height: usize, n: usize) -> (r: bool)
    ensures
        r == enough_cells(width as int, height as int, n as int),
{
    if n == 0 {
        return false;
    }
    match width.checked_mul(height) {
        Some(cells) => n <= cells,
        None => true,
    }
}

/// Is `p` among the cells in `placed`?
fn is_taken(placed: &Vec<Dimensions>, p: Dimensions) -> (r: bool)
    ensures
        r == placed@.contains(p),
{
    let mut j: usize = 0;
    while j < placed.len()
        invariant
            j <= placed.len(),
            forall|k: int| 0 <= k < j ==> placed@[k] != p,
        decreases placed.len() - j,
    {
        if placed[j].row == p.row && placed[j].col == p.col {
            return true;
        }
        j += 1;
    }
    false
}

/// A sequence that holds every cell of a grid is at least as long as the
/// grid has cells.
proof fn lemma_grid_covered(ps: Seq<Dimensions>, bounds: Dimensions)
    requires
        forall|r: usize, c: usize|
            r < bounds.row && c < bounds.col ==> #[trigger] ps.contains(Dimensions { row: r, col: c }),
    ensures
        bounds.row * bounds.col <= ps.len(),
{
    let w = bounds.col as int;
    let h = bounds.row as int;
    let lin = |p: Dimensions| (p.row as int) * w + (p.col as int);
    let ls = ps.map_values(lin);
    ls.lemma_cardinality_of_set();
    lemma_int_range(0, h * w);
    assert forall|x: int| set_int_range(0, h * w).contains(x) implies ls.to_set().contains(x) by {
        assert(w > 0) by (nonlinear_arith)
            requires
                0 <= x < h * w,
                h >= 0,
        ;
        lemma_fundamental_div_mod(x, w);
        lemma_mod_pos_bound(x, w);
        let r = x / w;
        let c = x % w;
        assert(0 <= r < h) by (nonlinear_arith)
            requires
                x == w * r + c,
                0 <= c < w,
                0 <= x < h * w,
        ;
        let cell = Dimensions { row: r as usize, col: c as usize };
        assert(ps.contains(cell));
        let j = choose|j: int| 0 <= j < ps.len() && ps[j] == cell;
        assert(ls[j] == x) by (nonlinear_arith)
            requires
                ls[j] == (cell.row as int) * w + (cell.col as int),
                cell.row as int == r,
                cell.col as int == c,
                x == w * r + c,
        ;
    }
    lemma_len_subset(set_int_range(0, h * w), ls.to_set());
}

/// The first cell of the grid, in row-major order, that `placed` does not
/// hold. One exists since `placed` is shorter than the grid has cells.
fn first_free_cell(placed: &Vec<Dimensions>, bounds: Dimensions) -> (r: Dimensions)
    requires
        placed.len() < bounds.row * bounds.col,
    ensures
        in_bounds(r, bounds),
        !placed@.contains(r),
{
    let mut row: usize = 0;
    while row < bounds.row
        invariant
            row <= bounds.row,
            forall|r: usize, c: usize|
                r < row && c < bounds.col ==> #[trigger] placed@.contains(Dimensions { row: r, col: c }),
        decreases bounds.row - row,
    {
        let mut col: usize = 0;
        while col < bounds.col
            invariant
                row < bounds.row,
                col <= bounds.col,
                forall|r: usize, c: usize|
                    r < row && c < bounds.col ==> #[trigger] placed@.contains(Dimensions { row: r, col: c }),
                forall|c: usize| c < col ==> #[trigger] placed@.contains(Dimensions { row, col: c }),
            decreases bounds.col - col,
        {
            let p = Dimensions { row, col };
            if !is_taken(placed, p) {
                return p;
            }
            col += 1;
        }
        row += 1;
    }
    proof {
        lemma_grid_covered(placed@, bounds);
    }
    Dimensions { row: 0, col: 0 }
}

/// A cell not in `placed`, found by drawing uniformly until one is free.
fn draw_free_cell<R: RandomSource>(placed: &Vec<Dimensions>, bounds: Dimensions, rng: &mut R) -> (r:
    Dimensions)
    requires
        nonempty(bounds),
        placed.len() < bounds.row * bounds.col,
    ensures
        in_bounds(r, bounds),
        !placed@.contains(r),
{
    let mut attempt: usize = 0;
    while attempt < MAX_DRAWS
        invariant
            nonempty(bounds),
        decreases MAX_DRAWS - attempt,
    {
        let p = Dimensions { row: rng.next_below(bounds.row), col: rng.next_below(bounds.col) };
        if !is_taken(placed, p) {
            return p;
        }
        attempt += 1;
    }
    first_free_cell(placed, bounds)
}

impl Board {
    /// A board of `width` x `height` cells for tokens `0..token_count`, all
    /// at the placeholder position (0, 0) until they are placed. Fails with
    /// `Configuration` when there are no tokens or fewer cells than tokens.
    pub fn new(width: usize, height: usize, token_count: usize) -> (r: Result<Board, SimError>)
        ensures
            r is Err <==> !enough_cells(width as int, height as int, token_count as int),
            r matches Err(e) ==> e == SimError::Configuration,
            r matches Ok(b) ==> b.width == width && b.height == height && b.positions@ =~= Seq::new(
                token_count as nat,
                |i: int| Dimensions { row: 0, col: 0 },
            ),
    {
        if !fits(width, height, token_count) {
            return Err(SimError::Configuration);
        }
        let mut positions: Vec<Dimensions> = Vec::new();
        while positions.len() < token_count
            invariant
                positions.len() <= token_count,
                forall|i: int|
                    0 <= i < positions.len() ==> positions@[i] == (Dimensions { row: 0, col: 0 }),
            decreases token_count - positions.len(),
        {
            positions.push(Dimensions { row: 0, col: 0 });
        }
        Ok(Board { positions, width, height })
    }

    /// The board's size: `height` rows and `width` columns.
    pub open spec fn size(&self) -> Dimensions {
        Dimensions { row: self.height, col: self.width }
    }

    pub fn bounds(&self) -> (r: Dimensions)
        ensures
            r == self.size(),
    {
        Dimensions { row: self.height, col: self.width }
    }

    /// Every token stands on the board, no two on the same cell.
    pub open spec fn placed_apart(&self) -> bool {
        &&& forall|i: int| 0 <= i < self.positions.len() ==> in_bounds(#[trigger] self.positions@[i], self.size())
        &&& pairwise_distinct(self.positions@)
    }

    /// Gives every token a distinct cell, drawn uniformly among the cells
    /// not yet taken by the tokens placed before it. Fails with
    /// `Configuration`, leaving the board as it was, when there are no tokens
    /// or fewer cells than tokens.
    pub fn place_uniquely<R: RandomSource>(&mut self, rng: &mut R) -> (r: Result<(), SimError>)
        ensures
            r is Err <==> !enough_cells(
                old(self).width as int,
                old(self).height as int,
                old(self).positions.len() as int,
            ),
            r matches Err(e) ==> e == SimError::Configuration && *final(self) == *old(self),
            r is Ok ==> final(self).width == old(self).width && final(self).height == old(
                self,
            ).height && final(self).positions.len() == old(self).positions.len(),
            r is Ok ==> final(self).placed_apart(),
    {
        let n = self.positions.len();
        if !fits(self.width, self.height, n) {
            return Err(SimError::Configuration);
        }
        let bounds = self.bounds();
        proof {
            let (w, h) = (self.width as int, self.height as int);
            assert(w > 0 && h > 0) by (nonlinear_arith)
                requires
                    0 < n <= w * h,
                    w >= 0,
                    h >= 0,
            ;
            assert(h * w == w * h) by (nonlinear_arith);
        }
        let mut placed: Vec<Dimensions> = Vec::new();
        while placed.len() < n
            invariant
                placed.len() <= n,
                n <= bounds.row * bounds.col,
                nonempty(bounds),
                forall|i: int| 0 <= i < placed.len() ==> in_bounds(#[trigger] placed@[i], bounds),
                pairwise_distinct(placed@),
            decreases n - placed.len(),
        {
            let p = draw_free_cell(&placed, bounds, rng);
            proof {
                assert forall|i: int| 0 <= i < placed.len() implies placed@[i] != p by {
                    if placed@[i] == p {
                        assert(placed@.contains(p));
                    }
                }
            }
            placed.push(p);
        }
        self.positions = placed;
        Ok(())
    }
}


impl Board {
    /// The lowest id of a living token that stands on `target`.
    pub open spec fn occupant(&self, tokens: Seq<Token>, target: Dimensions) -> Option<int> {
        occupant_below(self.positions@, tokens, target, self.positions.len() as int)
    }

    /// The living token on cell (`target_row`, `target_col`), if any; the
    /// lowest id where several stand there.
    pub fn try_get_alive_token(&self, target_row: usize, target_col: usize, tokens: &[Token]) -> (r:
        Option<usize>)
        requires
            tokens@.len() == self.positions.len(),
        ensures
            r matches Some(i) ==> self.occupant(tokens@, cell_at(target_row, target_col)) == Some(i as int),
            r is None ==> self.occupant(tokens@, cell_at(target_row, target_col)) is None,
            r matches Some(i) ==> i < tokens@.len() && tokens@[i as int].alive
                && self.positions@[i as int] == cell_at(target_row, target_col),
            r is None ==> forall|j: int|
                0 <= j < tokens@.len() ==> !(#[trigger] tokens@[j].alive && self.positions@[j]
                    == cell_at(target_row, target_col)),
    {
        let target = Dimensions { row: target_row, col: target_col };
        let n = self.positions.len();
        let mut i: usize = 0;
        while i < n
            invariant
                target == cell_at(target_row, target_col),
                n == self.positions.len(),
                n == tokens@.len(),
                i <= n,
                occupant_below(self.positions@, tokens@, target, i as int) is None,
            decreases n - i,
        {
            if tokens[i].alive && self.positions[i] == target {
                assert(occupant_below(self.positions@, tokens@, target, i as int + 1) == Some(
                    i as int,
                ));
                proof {
                    lemma_occupant_stable(self.positions@, tokens@, target, i as int + 1, n as int);
                    lemma_occupant_below(self.positions@, tokens@, target, n as int);
                }
                return Some(i);
            }
            assert(occupant_below(self.positions@, tokens@, target, i as int + 1) is None);
            i += 1;
        }
        proof {
            lemma_occupant_below(self.positions@, tokens@, target, n as int);
        }
        None
    }

    /// The living token on cell (`target_row`, `target_col`), if any.
    pub fn get_token_at(&self, target_row: usize, target_col: usize, tokens: &[Token]) -> (r:
        Option<usize>)
        requires
            tokens@.len() == self.positions.len(),
        ensures
            r matches Some(i) ==> self.occupant(tokens@, cell_at(target_row, target_col)) == Some(i as int),
            r is None ==> self.occupant(tokens@, cell_at(target_row, target_col)) is None,
    {
        self.try_get_alive_token(target_row, target_col, tokens)
    }

    /// Row and column of token `token_id`; `UnknownToken` when the board has
    /// no such token.
    pub fn take_row_col(&self, token_id: usize) -> (r: Result<(usize, usize), SimError>)
        ensures
            r is Err <==> token_id >= self.positions.len(),
            r matches Err(e) ==> e == SimError::UnknownToken,
            r matches Ok(rc) ==> rc == (self.positions@[token_id as int].row, self.positions@[token_id as int].col),
    {
        if token_id < self.positions.len() {
            Ok((self.positions[token_id].row, self.positions[token_id].col))
        } else {
            Err(SimError::UnknownToken)
        }
    }

    /// Moves token `token_id` to (`target_row`, `target_col`) without any
    /// check of the cell; `UnknownToken`, with the board unchanged, when the
    /// board has no such token.
    pub fn update_position(&mut self, token_id: usize, target_row: usize, target_col: usize) -> (r:
        Result<(), SimError>)
        ensures
            r is Err <==> token_id >= old(self).positions.len(),
            r matches Err(e) ==> e == SimError::UnknownToken && *final(self) == *old(self),
            r is Ok ==> final(self).positions@ == old(self).positions@.update(
                token_id as int,
                cell_at(target_row, target_col),
            ),
            final(self).width == old(self).width,
            final(self).height == old(self).height,
    {
        if token_id < self.positions.len() {
            self.positions.set(token_id, Dimensions { row: target_row, col: target_col });
            Ok(())
        } else {
            Err(SimError::UnknownToken)
        }
    }

    /// The character shown for cell (`row`, `col`): the symbol of its living
    /// occupant, or `.` when it is empty.
    pub open spec fn cell_char(&self, tokens: Seq<Token>, row: int, col: int) -> char {
        match self.occupant(tokens, Dimensions { row: row as usize, col: col as usize }) {
            Some(i) => tokens[i].symbol,
            None => '.',
        }
    }

    /// The first `k` characters of row `row`.
    pub open spec fn row_prefix(&self, tokens: Seq<Token>, row: int, k: int) -> Seq<char> {
        Seq::new(k as nat, |c: int| self.cell_char(tokens, row, c))
    }

    /// The text of the first `k` rows, each ended by a newline.
    pub open spec fn rows_text(&self, tokens: Seq<Token>, k: int) -> Seq<char>
        decreases k,
    {
        if k <= 0 {
            Seq::empty()
        } else {
            self.rows_text(tokens, k - 1) + self.row_prefix(tokens, k - 1, self.width as int).push(
                '\n',
            )
        }
    }

    /// The board as text: one line per row, one character per cell.
    pub fn render(&self, tokens: &[Token]) -> (r: String)
        requires
            tokens@.len() == self.positions.len(),
        ensures
            r@ == self.rows_text(tokens@, self.height as int),
    {
        let mut out = String::new();
        let mut row: usize = 0;
        while row < self.height
            invariant
                row <= self.height,
                tokens@.len() == self.positions.len(),
                out@ == self.rows_text(tokens@, row as int),
            decreases self.height - row,
        {
            let mut col: usize = 0;
            while col < self.width
                invariant
                    row < self.height,
                    col <= self.width,
                    tokens@.len() == self.positions.len(),
                    out@ == self.rows_text(tokens@, row as int) + self.row_prefix(
                        tokens@,
                        row as int,
                        col as int,
                    ),
                decreases self.width - col,
            {
                let ch = match self.try_get_alive_token(row, col, tokens) {
                    Some(i) => tokens[i].symbol,
                    None => '.',
                };
                out.push(ch);
                assert(self.row_prefix(tokens@, row as int, col as int + 1) =~= self.row_prefix(
                    tokens@,
                    row as int,
                    col as int,
                ).push(ch));
                col += 1;
            }
            out.push('\n');
            row += 1;
        }
        out
    }
}

} // verus!
