use retris::block::Block;
use retris::engine::{Engine, Input, State};
use retris::game::Game;
use retris::tetromino::Tetromino;

fn o_block_at(y: i32, x: i32) -> Block {
    let mut b = Block::new();
    b.setid(4);
    b.row("....");
    b.row(".OO.");
    b.row(".OO.");
    b.row("....");
    b.setyx(y, x);
    b
}

fn engine_with(game: Game, block: Block, next: Block) -> Engine {
    Engine { game, block, next, tetromino: Tetromino::new(), state: State::Playing }
}

#[test]
fn new_engine_is_a_fresh_session() {
    let e = Engine::new(Tetromino::new());
    assert_eq!(e.state, State::Playing);
    assert_eq!(e.game.score, 0);
    assert_eq!(e.game.level, 10);
    assert!(!e.game.done);
    assert!(e.game.data.iter().all(|c| *c == 0));
    assert_eq!((e.block.y, e.block.x), (-1, 5));
    assert_eq!((e.next.y, e.next.x), (-1, 5));
    assert!(1 <= e.block.id && e.block.id <= 7);
    assert!(1 <= e.next.id && e.next.id <= 7);
}

#[test]
fn a_tick_lets_the_piece_descend_one_row() {
    let mut e = engine_with(Game::new(), o_block_at(-1, 5), o_block_at(-1, 5));
    e.step(Input::Timeout);
    assert_eq!((e.block.y, e.block.x), (0, 5));
    assert_eq!(e.state, State::Playing);
    assert_eq!(e.game.score, 0);
    e.step(Input::Timeout);
    assert_eq!((e.block.y, e.block.x), (1, 5));
}

#[test]
fn moves_shift_the_anchor_and_gravity_still_applies() {
    let mut e = engine_with(Game::new(), o_block_at(5, 5), o_block_at(-1, 5));
    e.step(Input::MoveLeft);
    assert_eq!((e.block.y, e.block.x), (6, 4));
    e.step(Input::MoveRight);
    assert_eq!((e.block.y, e.block.x), (7, 5));
    e.step(Input::MoveDown);
    assert_eq!((e.block.y, e.block.x), (9, 5));
}

#[test]
fn a_blocked_move_is_a_no_op() {
    // the O piece at column 0 occupies columns 1 and 2: at the left wall
    let mut e = engine_with(Game::new(), o_block_at(5, 0), o_block_at(-1, 5));
    e.step(Input::MoveLeft);
    assert_eq!(e.block.x, 0);
    assert_eq!(e.block.y, 6);
}

#[test]
fn hard_drop_settles_the_o_piece_on_the_floor() {
    let mut e = engine_with(Game::new(), o_block_at(-1, 5), o_block_at(-1, 5));
    e.step(Input::HardDrop);
    // the piece fell from row -1 to row 18 and locked at once: its bottom
    // edge rests on the grid's last row in both occupied columns
    assert_eq!(e.game.data[Game::index(20, 6) as usize], 4);
    assert_eq!(e.game.data[Game::index(20, 7) as usize], 4);
    assert_eq!(e.game.data[Game::index(19, 6) as usize], 4);
    assert_eq!(e.game.data[Game::index(19, 7) as usize], 4);
    // 19 rows of descent were rewarded; the lock itself paid 10 - 10
    assert_eq!(e.game.score, 19);
    assert_eq!(e.state, State::Playing);
    assert!(!e.game.done);
    // the on-deck piece became active at the spawn anchor
    assert_eq!((e.block.y, e.block.x), (-1, 5));
}

#[test]
fn locking_a_piece_completes_and_clears_a_row() {
    let mut game = Game::new();
    // the bottom row is full except columns 11 and 12; a marker sits on
    // row 18 and another on row 19
    for c in 1..=10 {
        game.data[Game::index(20, c) as usize] = 1;
    }
    game.data[Game::index(18, 3) as usize] = 7;
    game.data[Game::index(19, 5) as usize] = 6;
    let mut e = engine_with(game, o_block_at(18, 10), o_block_at(-1, 5));
    let before = e.game.data.iter().filter(|c| **c != 0).count();
    assert_eq!(before, 12);
    e.step(Input::Timeout);
    // the piece could not descend: it locked, filled the bottom row, and
    // compaction removed exactly that row
    let after = e.game.data.iter().filter(|c| **c != 0).count();
    assert_eq!(after, before + 4 - 12);
    // the piece's upper half slid down into the bottom row
    assert_eq!(e.game.data[Game::index(20, 11) as usize], 4);
    assert_eq!(e.game.data[Game::index(20, 12) as usize], 4);
    // cells above the removed row shifted down one row
    assert_eq!(e.game.data[Game::index(19, 3) as usize], 7);
    assert_eq!(e.game.data[Game::index(20, 5) as usize], 6);
    assert_eq!(e.game.data[Game::index(18, 3) as usize], 0);
    // no other cell of the bottom row survived
    for c in 1..=10 {
        if c != 5 {
            assert_eq!(e.game.data[Game::index(20, c) as usize], 0);
        }
    }
    assert_eq!(e.state, State::Playing);
}

#[test]
fn a_piece_that_cannot_spawn_ends_the_game() {
    let mut game = Game::new();
    // the field is stacked up to the spawn anchor's rows: the cells the
    // next piece needs on rows 1 and 2 are taken
    game.data[Game::index(1, 6) as usize] = 2;
    game.data[Game::index(1, 7) as usize] = 2;
    game.data[Game::index(2, 6) as usize] = 2;
    game.data[Game::index(2, 7) as usize] = 2;
    let mut e = engine_with(game, o_block_at(18, 5), o_block_at(-1, 5));
    e.step(Input::Timeout);
    assert!(e.game.done);
    assert_eq!(e.state, State::GameOverWaiting);
}

#[test]
fn game_over_waits_for_quit_or_restart() {
    let mut game = Game::new();
    game.data[Game::index(1, 6) as usize] = 2;
    game.data[Game::index(2, 6) as usize] = 2;
    let mut e = engine_with(game, o_block_at(18, 5), o_block_at(-1, 5));
    e.step(Input::Timeout);
    assert_eq!(e.state, State::GameOverWaiting);
    let score = e.game.score;
    e.step(Input::MoveLeft);
    assert_eq!(e.state, State::GameOverWaiting);
    assert_eq!(e.game.score, score);
    e.step(Input::Timeout);
    assert_eq!(e.state, State::GameOverWaiting);
    e.step(Input::Restart);
    assert_eq!(e.state, State::Playing);
    assert_eq!(e.game.score, 0);
    assert_eq!(e.game.level, 10);
    assert!(!e.game.done);
    assert!(e.game.data.iter().all(|c| *c == 0));
}

#[test]
fn quit_terminates_from_playing_and_from_game_over() {
    let mut e = engine_with(Game::new(), o_block_at(5, 5), o_block_at(-1, 5));
    e.step(Input::Quit);
    assert_eq!(e.state, State::Terminated);

    let mut game = Game::new();
    game.data[Game::index(1, 6) as usize] = 2;
    game.data[Game::index(2, 6) as usize] = 2;
    let mut e2 = engine_with(game, o_block_at(18, 5), o_block_at(-1, 5));
    e2.step(Input::Timeout);
    assert_eq!(e2.state, State::GameOverWaiting);
    e2.step(Input::Quit);
    assert_eq!(e2.state, State::Terminated);
}

#[test]
fn restart_resets_a_running_session() {
    let mut e = engine_with(Game::new(), o_block_at(-1, 5), o_block_at(-1, 5));
    e.step(Input::HardDrop);
    assert!(e.game.score > 0);
    e.step(Input::Restart);
    assert_eq!(e.state, State::Playing);
    assert_eq!(e.game.score, 0);
    assert_eq!(e.game.level, 10);
    assert!(e.game.data.iter().all(|c| *c == 0));
    assert_eq!((e.block.y, e.block.x), (-1, 5));
}

#[test]
fn locking_lowers_the_level_as_the_stack_grows() {
    let mut e = engine_with(Game::new(), o_block_at(-1, 5), o_block_at(-1, 5));
    e.step(Input::HardDrop);
    // the stack's top is row 19: round(221 / 240 * 10) = 9
    assert_eq!(e.game.level, 9);
    let level = e.game.level;
    e.step(Input::Timeout);
    assert!(e.game.level <= level);
}

#[test]
fn rotation_through_the_loop_respects_collisions() {
    let mut game = Game::new();
    // the flat I piece would cover row 6, columns 5 through 8
    game.data[Game::index(6, 5) as usize] = 3;
    let mut b = Block::new();
    b.setid(1);
    b.row("..I.");
    b.row("..I.");
    b.row("..I.");
    b.row("..I.");
    b.setyx(5, 5);
    let mask = b.data.clone();
    let mut e = engine_with(game, b, o_block_at(-1, 5));
    e.step(Input::Rotate);
    // the rotation was rejected; the piece only fell one row
    assert_eq!(e.block.data, mask);
    assert_eq!(e.block.y, 6);
}
