use colored::Color;
use last_standing::board::Board;
use last_standing::dimensions::Dimensions;
use last_standing::error::SimError;
use last_standing::game::{Game, Phase};
use last_standing::random::RandomSource;
use last_standing::token::move_strategy::{Adjacent, MovePolicy, MoveStrategy, Random};
use last_standing::token::Token;

/// Replays a fixed list of draws, each reduced modulo the requested bound,
/// starting over at the end of the list.
struct Scripted {
    draws: Vec<usize>,
    next: usize,
}

impl Scripted {
    fn new(draws: Vec<usize>) -> Self {
        Scripted { draws, next: 0 }
    }
}

impl RandomSource for Scripted {
    fn next_below(&mut self, bound: usize) -> usize {
        if self.draws.is_empty() {
            return 0;
        }
        let v = self.draws[self.next] % bound;
        self.next = (self.next + 1) % self.draws.len();
        v
    }
}

fn token(symbol: char, policy: MovePolicy) -> Token {
    Token::new(symbol, policy, Color::Red)
}

fn alive_count(game: &Game) -> usize {
    game.tokens().iter().filter(|t| t.is_alive()).count()
}

#[test]
fn dimensions_new_keeps_fields() {
    let d = Dimensions::new(3, 7);
    assert_eq!(d.row, 3);
    assert_eq!(d.col, 7);
}

#[test]
fn random_generate_moves_within_bounds_and_away() {
    let mut rng = rand::rng();
    let sizes = [(1usize, 2usize), (2, 1), (2, 2), (4, 8), (3, 5)];
    for &(rows, cols) in sizes.iter() {
        let bounds = Dimensions::new(rows, cols);
        for row in 0..rows {
            for col in 0..cols {
                let prior = Dimensions::new(row, col);
                for _ in 0..50 {
                    let p = Random.generate(Some(prior), bounds, &mut rng).unwrap();
                    assert!(p.row < rows && p.col < cols);
                    assert_ne!(p, prior);
                }
            }
        }
    }
}

#[test]
fn random_generate_without_prior_is_any_cell() {
    let mut rng = rand::rng();
    let bounds = Dimensions::new(1, 1);
    let p = Random.generate(None, bounds, &mut rng).unwrap();
    assert_eq!(p, Dimensions::new(0, 0));
    let mut script = Scripted::new(vec![2, 5]);
    let p = Random.generate(None, Dimensions::new(4, 8), &mut script).unwrap();
    assert_eq!(p, Dimensions::new(2, 5));
}

#[test]
fn random_generate_redraws_the_current_cell() {
    let mut script = Scripted::new(vec![1, 1, 0, 1]);
    let p = Random.generate(Some(Dimensions::new(1, 1)), Dimensions::new(2, 2), &mut script).unwrap();
    assert_eq!(p, Dimensions::new(0, 1));
}

#[test]
fn random_candidate_rejects_only_the_prior() {
    assert_eq!(Random::candidate(Some(Dimensions::new(1, 2)), 1, 2), None);
    assert_eq!(Random::candidate(Some(Dimensions::new(1, 2)), 2, 1), Some(Dimensions::new(2, 1)));
    assert_eq!(Random::candidate(None, 0, 0), Some(Dimensions::new(0, 0)));
}

#[test]
fn adjacent_generate_moves_one_step_at_most() {
    let mut rng = rand::rng();
    let sizes = [(2usize, 2usize), (4, 8), (3, 3), (1, 3), (3, 1)];
    for &(rows, cols) in sizes.iter() {
        let bounds = Dimensions::new(rows, cols);
        for row in 0..rows {
            for col in 0..cols {
                let prior = Dimensions::new(row, col);
                for _ in 0..50 {
                    let p = Adjacent.generate(Some(prior), bounds, &mut rng).unwrap();
                    assert!(p.row < rows && p.col < cols);
                    assert_ne!(p, prior);
                    assert!(p.row.abs_diff(row) <= 1 && p.col.abs_diff(col) <= 1);
                }
            }
        }
    }
}

#[test]
fn adjacent_generate_without_prior_fails() {
    let mut rng = rand::rng();
    let r = Adjacent.generate(None, Dimensions::new(4, 8), &mut rng);
    assert_eq!(r, Err(SimError::PolicyPrecondition));
    let r = MovePolicy::Adjacent.generate(None, Dimensions::new(2, 2), &mut rng);
    assert_eq!(r, Err(SimError::PolicyPrecondition));
}

#[test]
fn adjacent_generate_retries_a_standstill() {
    // Both axes stay put first (draw 1), then the row steps back (0) and
    // the column steps forward (2).
    let mut script = Scripted::new(vec![1, 1, 0, 2]);
    let p = Adjacent.generate(Some(Dimensions::new(2, 3)), Dimensions::new(4, 8), &mut script).unwrap();
    assert_eq!(p, Dimensions::new(1, 4));
}

#[test]
fn adjacent_shift_clamps_at_the_edges() {
    assert_eq!(Adjacent::shift(0, 4, 0), 0);
    assert_eq!(Adjacent::shift(2, 4, 0), 1);
    assert_eq!(Adjacent::shift(2, 4, 1), 2);
    assert_eq!(Adjacent::shift(2, 4, 2), 3);
    assert_eq!(Adjacent::shift(3, 4, 2), 3);
    assert_eq!(Adjacent::shift(0, 1, 2), 0);
}

#[test]
fn adjacent_candidate_rejects_a_standstill() {
    let bounds = Dimensions::new(4, 8);
    assert_eq!(Adjacent::candidate(Dimensions::new(0, 0), bounds, 0, 1), None);
    assert_eq!(Adjacent::candidate(Dimensions::new(3, 7), bounds, 2, 2), None);
    assert_eq!(
        Adjacent::candidate(Dimensions::new(3, 7), bounds, 0, 2),
        Some(Dimensions::new(2, 7))
    );
}

#[test]
fn descriptors_name_the_policy() {
    assert_eq!(Random.descriptor(), "randomly");
    assert_eq!(Adjacent.descriptor(), "adjacently");
    assert_eq!(MovePolicy::Random.descriptor(), "randomly");
    assert_eq!(MovePolicy::Adjacent.descriptor(), "adjacently");
}

#[test]
fn board_new_checks_the_configuration() {
    assert_eq!(Board::new(1, 1, 2).unwrap_err(), SimError::Configuration);
    assert_eq!(Board::new(8, 4, 0).unwrap_err(), SimError::Configuration);
    assert_eq!(Board::new(0, 4, 1).unwrap_err(), SimError::Configuration);
    let b = Board::new(3, 2, 6).unwrap();
    assert_eq!(b.width, 3);
    assert_eq!(b.height, 2);
    assert_eq!(b.positions, vec![Dimensions::new(0, 0); 6]);
}

#[test]
fn place_uniquely_on_too_small_board_fails() {
    let mut board = Board { positions: vec![Dimensions::new(0, 0); 2], width: 1, height: 1 };
    let mut rng = rand::rng();
    assert_eq!(board.place_uniquely(&mut rng), Err(SimError::Configuration));
    assert_eq!(board.positions, vec![Dimensions::new(0, 0); 2]);
}

#[test]
fn place_uniquely_gives_distinct_cells() {
    let mut rng = rand::rng();
    for &(w, h, n) in [(8usize, 4usize, 4usize), (3, 3, 9), (2, 1, 2), (5, 5, 20)].iter() {
        let mut board = Board::new(w, h, n).unwrap();
        board.place_uniquely(&mut rng).unwrap();
        assert_eq!(board.positions.len(), n);
        for i in 0..n {
            let p = board.positions[i];
            assert!(p.row < h && p.col < w);
            for j in 0..i {
                assert_ne!(board.positions[j], p);
            }
        }
    }
}

#[test]
fn place_uniquely_falls_back_to_the_first_free_cell() {
    // Every draw is (0, 0): the first token takes it, the others end up on
    // the first free cells in row-major order.
    let mut script = Scripted::new(vec![0]);
    let mut board = Board::new(2, 2, 3).unwrap();
    board.place_uniquely(&mut script).unwrap();
    assert_eq!(
        board.positions,
        vec![Dimensions::new(0, 0), Dimensions::new(0, 1), Dimensions::new(1, 0)]
    );
}

#[test]
fn board_lookup_and_update() {
    let mut board = Board::new(3, 2, 2).unwrap();
    assert_eq!(board.update_position(1, 1, 2), Ok(()));
    assert_eq!(board.take_row_col(1), Ok((1, 2)));
    assert_eq!(board.take_row_col(0), Ok((0, 0)));
    assert_eq!(board.take_row_col(2), Err(SimError::UnknownToken));
    assert_eq!(board.update_position(5, 0, 0), Err(SimError::UnknownToken));
    let mut tokens = vec![token('a', MovePolicy::Random), token('b', MovePolicy::Random)];
    assert_eq!(board.try_get_alive_token(1, 2, &tokens), Some(1));
    assert_eq!(board.get_token_at(0, 0, &tokens), Some(0));
    assert_eq!(board.try_get_alive_token(0, 1, &tokens), None);
    tokens[1].kill();
    assert_eq!(board.try_get_alive_token(1, 2, &tokens), None);
}

#[test]
fn render_shows_living_tokens_only() {
    let board = Board { positions: vec![Dimensions::new(0, 1)], width: 3, height: 2 };
    let tokens = vec![token('X', MovePolicy::Random)];
    assert_eq!(board.render(&tokens), ".X.\n...\n");
    let mut dead = vec![token('X', MovePolicy::Random)];
    dead[0].kill();
    assert_eq!(board.render(&dead), "...\n...\n");
}

#[test]
fn token_kill_is_idempotent_and_equality_is_by_id() {
    let mut t = token('@', MovePolicy::Adjacent);
    assert!(t.is_alive());
    t.kill();
    assert!(!t.is_alive());
    t.kill();
    assert!(!t.is_alive());
    let mut u = token('&', MovePolicy::Random);
    assert!(t == u);
    u.id = 1;
    assert!(t != u);
}

#[test]
fn dead_token_relocation_follows_its_policy() {
    let mut rng = rand::rng();
    let mut t = token('$', MovePolicy::Adjacent);
    t.kill();
    assert_eq!(t.relocate(Dimensions::new(4, 8), &mut rng), Err(SimError::PolicyPrecondition));
    let mut r = token('@', MovePolicy::Random);
    r.pos = Dimensions::new(1, 1);
    let p = r.relocate(Dimensions::new(4, 8), &mut rng).unwrap();
    assert_ne!(p, Dimensions::new(1, 1));
}

#[test]
fn game_new_rejects_bad_configurations() {
    let mut rng = rand::rng();
    let tokens = vec![token('a', MovePolicy::Random), token('b', MovePolicy::Random)];
    assert_eq!(Game::new(1, 1, tokens, &mut rng).err(), Some(SimError::Configuration));
    assert_eq!(Game::new(8, 4, Vec::new(), &mut rng).err(), Some(SimError::Configuration));
}

#[test]
fn game_new_assigns_ids_and_places_tokens() {
    let mut rng = rand::rng();
    let mut tokens = vec![
        token('@', MovePolicy::Random),
        token('&', MovePolicy::Random),
        token('$', MovePolicy::Adjacent),
        token('#', MovePolicy::Adjacent),
    ];
    tokens[2].kill();
    let game = Game::new(8, 4, tokens, &mut rng).unwrap();
    let ts = game.tokens();
    assert_eq!(ts.len(), 4);
    for (i, t) in ts.iter().enumerate() {
        assert_eq!(t.id, i);
        assert!(t.is_alive());
        assert_eq!(t.pos, game.board().positions[i]);
    }
    assert_eq!(ts[2].symbol, '$');
    assert_eq!(game.phase(), Phase::Running);
    assert_eq!(game.winner(), None);
    assert_eq!(game.living_count(), 4);
}

#[test]
fn single_token_game_is_finished_at_once() {
    let mut rng = rand::rng();
    let game = Game::new(2, 2, vec![token('@', MovePolicy::Random)], &mut rng).unwrap();
    assert_eq!(game.phase(), Phase::Finished);
    assert_eq!(game.winner(), Some(0));
}

#[test]
fn turns_select_living_tokens_and_captures_kill_one() {
    let mut rng = rand::rng();
    for _ in 0..20 {
        let tokens = vec![
            token('@', MovePolicy::Random),
            token('&', MovePolicy::Random),
            token('$', MovePolicy::Adjacent),
            token('#', MovePolicy::Adjacent),
        ];
        let mut game = Game::new(3, 2, tokens, &mut rng).unwrap();
        while game.winner().is_none() {
            let before: Vec<Token> = game.tokens().clone();
            let report = game.step(&mut rng);
            let after = game.tokens();
            assert!(before[report.mover].is_alive());
            assert_ne!(report.target, before[report.mover].pos);
            assert_eq!(after[report.mover].pos, report.target);
            let flipped: Vec<usize> =
                (0..after.len()).filter(|&j| after[j].alive != before[j].alive).collect();
            match report.captured {
                Some(v) => {
                    assert_eq!(flipped, vec![v]);
                    assert_ne!(v, report.mover);
                    assert!(before[v].is_alive() && !after[v].is_alive());
                    assert_eq!(before[v].pos, report.target);
                }
                None => assert!(flipped.is_empty()),
            }
            let lost = before.iter().filter(|t| t.is_alive()).count() - alive_count(&game);
            assert_eq!(lost, if report.captured.is_some() { 1 } else { 0 });
        }
        assert_eq!(alive_count(&game), 1);
    }
}

#[test]
fn turn_order_skips_dead_tokens() {
    // 1 x 3 board; placement draws put token 0 at column 0, token 1 at
    // column 1, token 2 at column 2. Token 0 (Random) then draws column 1
    // and captures token 1; the next mover must be token 2.
    let mut script = Scripted::new(vec![0, 0, 0, 1, 0, 2, 0, 1, 0, 0]);
    let tokens = vec![
        token('a', MovePolicy::Random),
        token('b', MovePolicy::Random),
        token('c', MovePolicy::Random),
    ];
    let mut game = Game::new(3, 1, tokens, &mut script).unwrap();
    let first = game.step(&mut script);
    assert_eq!(first.mover, 0);
    assert_eq!(first.captured, Some(1));
    assert_eq!(game.next_mover(), 2);
    let second = game.step(&mut script);
    assert_eq!(second.mover, 2);
}

#[test]
fn two_by_two_game_ends_after_one_capture() {
    // Placement: A at (0, 0), B at (1, 1). A's first draw is (1, 1).
    let mut script = Scripted::new(vec![0, 0, 1, 1, 1, 1]);
    let tokens = vec![token('A', MovePolicy::Random), token('B', MovePolicy::Adjacent)];
    let mut game = Game::new(2, 2, tokens, &mut script).unwrap();
    assert_eq!(game.tokens()[0].pos, Dimensions::new(0, 0));
    assert_eq!(game.tokens()[1].pos, Dimensions::new(1, 1));
    let report = game.step(&mut script);
    assert_eq!(report.mover, 0);
    assert_eq!(report.target, Dimensions::new(1, 1));
    assert_eq!(report.captured, Some(1));
    assert!(!game.tokens()[1].is_alive());
    assert_eq!(game.tokens()[0].pos, Dimensions::new(1, 1));
    assert_eq!(game.board().take_row_col(0), Ok((1, 1)));
    assert_eq!(game.phase(), Phase::Finished);
    assert_eq!(game.winner(), Some(0));
    assert_eq!(game.render(), "..\n.A\n");
}

#[test]
fn scripted_game_reaches_a_single_survivor() {
    // 1 x 3 board, tokens at columns 0, 1, 2. Token 0 captures token 1 on
    // column 1, then token 2 captures token 0 there.
    let mut script = Scripted::new(vec![0, 0, 0, 1, 0, 2, 0, 1, 0, 1]);
    let tokens = vec![
        token('a', MovePolicy::Random),
        token('b', MovePolicy::Random),
        token('c', MovePolicy::Random),
    ];
    let mut game = Game::new(3, 1, tokens, &mut script).unwrap();
    let mut turns = 0;
    while game.winner().is_none() {
        game.step(&mut script);
        turns += 1;
        assert!(turns <= 2);
    }
    assert_eq!(turns, 2);
    assert_eq!(alive_count(&game), 1);
    assert_eq!(game.winner(), Some(2));
    assert_eq!(game.render(), ".c.\n");
}

#[test]
fn error_messages_are_distinct() {
    let all = [
        SimError::Configuration,
        SimError::PolicyPrecondition,
        SimError::UnknownToken,
    ];
    for (i, a) in all.iter().enumerate() {
        assert!(!a.message().is_empty());
        for b in all.iter().skip(i + 1) {
            assert_ne!(a.message(), b.message());
        }
    }
    assert_eq!(SimError::UnknownToken.message(), "unknown token id");
}
